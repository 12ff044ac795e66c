//! The EPUB book of an issue, assembled with the `epub_builder` crate: the
//! pages are made here, the container is the outside crate's work.

use vstd::prelude::*;
use vstd::string::*;
use epub_builder::{EpubBuilder, EpubContent, ZipLibrary};
use crate::error::PhrackIssueManagerError;
use crate::export::{issue_title, EpubExporter};

verus! {

/// `epub_builder::ZipLibrary`, the in-memory archive that a book is written to.
#[verifier::external_type_specification]
#[verifier::external_body]
pub struct ExZipLibrary(epub_builder::ZipLibrary);

/// `epub_builder::Error`, the failure of any call into that crate.
#[verifier::external_type_specification]
#[verifier::external_body]
pub struct ExEpubError(epub_builder::Error);

/// A book under construction: an `epub_builder::EpubBuilder` over a
/// `ZipLibrary`. The builder's type parameter is bound by a trait that the
/// crate does not export, so the builder is kept behind this opaque struct.
/// Nothing is known of what it holds.
#[verifier::external_body]
pub struct EpubDraft {
    inner: EpubBuilder<ZipLibrary>,
}

/// Trusted: calls `ZipLibrary::new`, which opens an empty in-memory archive and
/// may fail. Nothing is claimed of the result.
#[verifier::external_body]
fn zip_library() -> (zip: Result<ZipLibrary, epub_builder::Error>) {
    ZipLibrary::new()
}

/// Trusted: calls `EpubBuilder::new`, which writes the container files into
/// the archive and may fail. Nothing is claimed of the result.
#[verifier::external_body]
fn draft_on(zip: ZipLibrary) -> (draft: Result<EpubDraft, epub_builder::Error>) {
    match EpubBuilder::new(zip) {
        Ok(inner) => Ok(EpubDraft { inner }),
        Err(e) => Err(e),
    }
}

/// Trusted: calls `EpubBuilder::metadata`, which keeps the value under the
/// key and fails on a key it does not know. Nothing is claimed of the result.
#[verifier::external_body]
fn set_metadata(draft: &mut EpubDraft, key: &str, value: &str) -> (done: Result<
    (),
    epub_builder::Error,
>) {
    match draft.inner.metadata(key, value) {
        Ok(_) => Ok(()),
        Err(e) => Err(e),
    }
}

/// Trusted: calls `EpubBuilder::stylesheet`, which stores the style sheet in
/// the archive and may fail. Nothing is claimed of the result.
#[verifier::external_body]
fn set_stylesheet(draft: &mut EpubDraft, css: &str) -> (done: Result<(), epub_builder::Error>) {
    match draft.inner.stylesheet(css.as_bytes()) {
        Ok(_) => Ok(()),
        Err(e) => Err(e),
    }
}

/// Trusted: calls `EpubBuilder::add_content` with an `EpubContent` made of the
/// page's name, its text and its title. The call stores the page in the
/// archive and may fail. Nothing is claimed of the result.
#[verifier::external_body]
fn add_page(draft: &mut EpubDraft, href: &str, title: &str, page: &str) -> (done: Result<
    (),
    epub_builder::Error,
>) {
    match draft.inner.add_content(EpubContent::new(href, page.as_bytes()).title(title)) {
        Ok(_) => Ok(()),
        Err(e) => Err(e),
    }
}

/// Trusted: calls `EpubBuilder::generate` with a byte vector as the target.
/// The bytes hold a date and a random identifier, so nothing is claimed of
/// them.
#[verifier::external_body]
fn finish(draft: EpubDraft) -> (book: Result<Vec<u8>, epub_builder::Error>) {
    let mut bytes: Vec<u8> = Vec::new();
    match draft.inner.generate(&mut bytes) {
        Ok(()) => Ok(bytes),
        Err(e) => Err(e),
    }
}

/// Trusted: the text that `epub_builder::Error` shows for itself. Nothing is
/// claimed of it.
#[verifier::external_body]
fn describe(error: &epub_builder::Error) -> (text: String) {
    error.to_string()
}

/// The failure reported where the assembly of a book failed with `message`.
pub fn epub_failure(message: String) -> (failure: PhrackIssueManagerError)
    ensures
        failure == PhrackIssueManagerError::EpubGeneration(message),
{
    PhrackIssueManagerError::EpubGeneration(message)
}

/// The style sheet of every book.
pub fn stylesheet() -> (css: &'static str)
    ensures
        css@ == "\npre {\n    font-family: monospace, 'Courier New', Courier;\n    white-space: pre;\n    font-size: 0.85em;\n    line-height: 1.2;\n    margin: 0;\n    padding: 0.5em;\n}\nbody {\n    margin: 0;\n    padding: 0;\n}\n"@,
{
    "\npre {\n    font-family: monospace, 'Courier New', Courier;\n    white-space: pre;\n    font-size: 0.85em;\n    line-height: 1.2;\n    margin: 0;\n    padding: 0.5em;\n}\nbody {\n    margin: 0;\n    padding: 0;\n}\n"
}

impl EpubExporter {
    /// Assembles the book of an issue from the texts of its articles, in
    /// order: title, author and language, the style sheet, then the pages
    /// that `pages` makes of the articles. Whether the outside crate succeeds
    /// is its own matter; where it fails, the failure is an EPUB generation
    /// error that carries the crate's message.
    pub fn build(&self, issue: u32, articles: &Vec<String>) -> (book: Result<
        Vec<u8>,
        PhrackIssueManagerError,
    >)
        ensures
            book is Err ==> book->Err_0 is EpubGeneration,
    {
        let zip = match zip_library() {
            Ok(zip) => zip,
            Err(e) => {
                return Err(epub_failure(describe(&e)));
            },
        };
        let mut draft = match draft_on(zip) {
            Ok(draft) => draft,
            Err(e) => {
                return Err(epub_failure(describe(&e)));
            },
        };
        let title = issue_title(issue);
        if let Err(e) = set_metadata(&mut draft, "title", title.as_str()) {
            return Err(epub_failure(describe(&e)));
        }
        if let Err(e) = set_metadata(&mut draft, "author", "Phrack Staff") {
            return Err(epub_failure(describe(&e)));
        }
        if let Err(e) = set_metadata(&mut draft, "lang", "en") {
            return Err(epub_failure(describe(&e)));
        }
        if let Err(e) = set_stylesheet(&mut draft, stylesheet()) {
            return Err(epub_failure(describe(&e)));
        }
        let pages = self.pages(articles);
        let mut i: usize = 0;
        while i < pages.len()
            invariant
                i <= pages.len(),
            decreases pages.len() - i,
        {
            let page = &pages[i];
            if let Err(e) = add_page(
                &mut draft,
                page.href.as_str(),
                page.title.as_str(),
                page.content.as_str(),
            ) {
                return Err(epub_failure(describe(&e)));
            }
            i = i + 1;
        }
        let outcome: Result<Vec<u8>, String> = match finish(draft) {
            Ok(bytes) => Ok(bytes),
            Err(e) => Err(describe(&e)),
        };
        book_of(outcome)
    }
}

/// What is reported for the outcome of the assembly: the bytes as they came
/// where it succeeded, else an EPUB generation error with the message given.
pub fn book_of(outcome: Result<Vec<u8>, String>) -> (book: Result<Vec<u8>, PhrackIssueManagerError>)
    ensures
        match outcome {
            Ok(bytes) => book == Ok::<Vec<u8>, PhrackIssueManagerError>(bytes),
            Err(message) => book == Err::<Vec<u8>, PhrackIssueManagerError>(
                PhrackIssueManagerError::EpubGeneration(message),
            ),
        },
{
    match outcome {
        Ok(bytes) => Ok(bytes),
        Err(message) => Err(epub_failure(message)),
    }
}

} // verus!
