//! The PDF document of an issue, laid out with the `genpdf` crate: the lines
//! and labels are made here, fonts and pages are the outside crate's work.

use vstd::prelude::*;
use vstd::string::*;
use genpdf::elements::{Paragraph, Text};
use genpdf::fonts::{FontData, FontFamily};
use genpdf::style::{Style, StyledString};
use genpdf::{Alignment, Document, SimplePageDecorator};
use crate::error::PhrackIssueManagerError;
use crate::export::{issue_title, PDFExporter};
use crate::files::views;
use crate::text::{chars_of, decimal, push_char, push_decimal};

verus! {

/// `genpdf::fonts::FontData`, one font as read from a font file.
#[verifier::external_type_specification]
#[verifier::external_body]
pub struct ExFontData(genpdf::fonts::FontData);

/// `genpdf::Document`, a document under construction.
#[verifier::external_type_specification]
#[verifier::external_body]
pub struct ExDocument(genpdf::Document);

/// `genpdf::error::Error`, the failure of any call into that crate.
#[verifier::external_type_specification]
#[verifier::external_body]
pub struct ExPdfError(genpdf::error::Error);

/// The position of the first line feed in `s`, or its length where it has none.
pub open spec fn first_newline(s: Seq<char>) -> int
    decreases s.len(),
{
    if s.len() == 0 {
        0
    } else if s[0] == '\n' {
        0
    } else {
        1 + first_newline(s.skip(1))
    }
}

/// A line without the carriage return that stood before its line feed.
pub open spec fn without_cr(line: Seq<char>) -> Seq<char> {
    if line.len() > 0 && line.last() == '\r' {
        line.drop_last()
    } else {
        line
    }
}

/// The lines of a text. A line ends at a line feed, which is dropped together
/// with a carriage return directly before it; the last line needs no line
/// feed, and an empty rest after the last line feed is no line.
pub open spec fn lines_of(s: Seq<char>) -> Seq<Seq<char>>
    decreases s.len(),
{
    if s.len() == 0 {
        Seq::empty()
    } else {
        let end = first_newline(s);
        if end < 0 || end >= s.len() {
            seq![s]
        } else {
            seq![without_cr(s.take(end))] + lines_of(s.skip(end + 1))
        }
    }
}

/// The lines of several texts, one text after the other.
pub open spec fn all_lines_of(articles: Seq<Seq<char>>) -> Seq<Seq<char>>
    decreases articles.len(),
{
    if articles.len() == 0 {
        Seq::empty()
    } else {
        all_lines_of(articles.drop_last()) + lines_of(articles.last())
    }
}

/// The label at the top of a page.
pub open spec fn page_label_text(page: nat) -> Seq<char> {
    "Page "@ + decimal(page)
}

proof fn lemma_first_newline(s: Seq<char>, n: int)
    requires
        0 <= n <= s.len(),
        forall|k: int| 0 <= k < n ==> s[k] != '\n',
        n == s.len() || s[n] == '\n',
    ensures
        first_newline(s) == n,
    decreases n,
{
    if n > 0 {
        let rest = s.skip(1);
        assert forall|k: int| 0 <= k < n - 1 implies rest[k] != '\n' by {
            assert(rest[k] == s[k + 1]);
        }
        lemma_first_newline(rest, n - 1);
    }
}

fn text_between(chars: &Vec<char>, from: usize, to: usize) -> (text: String)
    requires
        from <= to <= chars.len(),
    ensures
        text@ == chars@.subrange(from as int, to as int),
{
    let mut text = String::new();
    let mut i: usize = from;
    assert(chars@.subrange(from as int, from as int) =~= Seq::<char>::empty());
    while i < to
        invariant
            from <= i <= to <= chars.len(),
            text@ == chars@.subrange(from as int, i as int),
        decreases to - i,
    {
        push_char(&mut text, chars[i]);
        assert(text@ =~= chars@.subrange(from as int, i + 1));
        i = i + 1;
    }
    text
}

/// Splits a text into its lines.
pub fn lines(content: &str) -> (out: Vec<String>)
    ensures
        views(out@) == lines_of(content@),
{
    let chars = chars_of(content);
    let ghost s = chars@;
    let mut out: Vec<String> = Vec::new();
    let mut start: usize = 0;
    let mut i: usize = 0;
    proof {
        assert(s.skip(0) =~= s);
        assert(views(out@) + lines_of(s.skip(0)) =~= lines_of(s));
    }
    while i < chars.len()
        invariant
            start <= i <= chars.len(),
            s == chars@,
            lines_of(s) == views(out@) + lines_of(s.skip(start as int)),
            forall|k: int| start <= k < i ==> s[k] != '\n',
        decreases chars.len() - i,
    {
        if chars[i] == '\n' {
            let ghost rest = s.skip(start as int);
            let ghost before = views(out@);
            proof {
                assert forall|k: int| 0 <= k < i - start implies rest[k] != '\n' by {
                    assert(rest[k] == s[start + k]);
                }
                assert(rest[i - start] == s[i as int]);
                lemma_first_newline(rest, i - start);
                assert(rest.skip(i - start + 1) =~= s.skip(i + 1));
                assert(rest.take(i - start) =~= s.subrange(start as int, i as int));
            }
            let end: usize = if i > start && chars[i - 1] == '\r' {
                i - 1
            } else {
                i
            };
            proof {
                let line = s.subrange(start as int, i as int);
                if i > start {
                    assert(line.last() == s[i - 1]);
                }
                assert(without_cr(line) =~= s.subrange(start as int, end as int));
            }
            let line = text_between(&chars, start, end);
            out.push(line);
            proof {
                assert(views(out@) =~= before + seq![
                    s.subrange(start as int, end as int),
                ]);
                assert(lines_of(s) =~= views(out@) + lines_of(s.skip(i + 1)));
            }
            start = i + 1;
        }
        i = i + 1;
    }
    if start < chars.len() {
        let ghost rest = s.skip(start as int);
        let ghost before = views(out@);
        proof {
            assert forall|k: int| 0 <= k < rest.len() implies rest[k] != '\n' by {
                assert(rest[k] == s[start + k]);
            }
            lemma_first_newline(rest, rest.len() as int);
            assert(rest =~= s.subrange(start as int, s.len() as int));
        }
        let line = text_between(&chars, start, chars.len());
        out.push(line);
        proof {
            assert(views(out@) =~= before + seq![rest]);
        }
    } else {
        proof {
            assert(s.skip(start as int).len() == 0);
            assert(views(out@) + Seq::<Seq<char>>::empty() =~= views(out@));
        }
    }
    out
}

/// The label at the top of the page with this number.
pub fn page_label(page: usize) -> (label: String)
    ensures
        label@ == page_label_text(page as nat),
{
    let mut label = String::from_str("Page ");
    push_decimal(&mut label, page as u64);
    label
}

/// Trusted: calls `Document::new` with the family made of the four fonts.
/// Nothing is claimed of the result.
#[verifier::external_body]
fn new_document(regular: FontData, bold: FontData, italic: FontData, bold_italic: FontData) -> (doc:
    Document) {
    Document::new(FontFamily { regular, bold, italic, bold_italic })
}

/// Trusted: calls `Document::set_title`, which keeps the title for the
/// rendering.
#[verifier::external_body]
fn set_title(doc: &mut Document, title: &str) {
    doc.set_title(title)
}

/// Trusted: calls `Document::set_font_size`, which sets the size of the text.
#[verifier::external_body]
fn set_font_size(doc: &mut Document, size: u8) {
    doc.set_font_size(size)
}

/// Trusted: gives the document a `SimplePageDecorator` with the given margins
/// on all sides, whose header is the page's label in bold at the given size,
/// set to the right. The label comes from `page_label`.
#[verifier::external_body]
fn decorate(doc: &mut Document, margins: i32, label_size: u8) {
    let mut decorator = SimplePageDecorator::new();
    decorator.set_margins(margins);
    decorator.set_header(move |page| {
        let style = Style::new().bold().with_font_size(label_size);
        let mut header = Paragraph::from(vec![StyledString::new(page_label(page), style)]);
        header.set_alignment(Alignment::Right);
        header
    });
    doc.set_page_decorator(decorator);
}

/// Trusted: calls `Document::push` with a `Text` element that holds the line.
#[verifier::external_body]
fn push_line(doc: &mut Document, line: &str) {
    doc.push(Text::new(line))
}

/// Trusted: calls `Document::render` with a byte vector as the target. What
/// the bytes hold is the outside crate's matter; nothing is claimed of them.
#[verifier::external_body]
fn render(doc: Document) -> (bytes: Result<Vec<u8>, genpdf::error::Error>) {
    let mut bytes: Vec<u8> = Vec::new();
    match doc.render(&mut bytes) {
        Ok(()) => Ok(bytes),
        Err(e) => Err(e),
    }
}

/// Trusted: the text that `genpdf::error::Error` shows for itself. Nothing is
/// claimed of it.
#[verifier::external_body]
fn describe(error: &genpdf::error::Error) -> (text: String) {
    error.to_string()
}

/// The failure reported where the layout of a document failed with `message`.
pub fn pdf_failure(message: String) -> (failure: PhrackIssueManagerError)
    ensures
        failure == PhrackIssueManagerError::GenPdf(message),
{
    PhrackIssueManagerError::GenPdf(message)
}

impl PDFExporter {
    /// The lines of the document of an issue: the lines of each article, in
    /// the order of the articles.
    pub fn all_lines(&self, articles: &Vec<String>) -> (out: Vec<String>)
        ensures
            views(out@) == all_lines_of(views(articles@)),
    {
        let mut out: Vec<String> = Vec::new();
        let ghost all = views(articles@);
        let mut i: usize = 0;
        proof {
            assert(all.subrange(0, 0) =~= Seq::<Seq<char>>::empty());
            assert(views(out@) =~= Seq::<Seq<char>>::empty());
        }
        while i < articles.len()
            invariant
                i <= articles.len(),
                all == views(articles@),
                views(out@) == all_lines_of(all.subrange(0, i as int)),
            decreases articles.len() - i,
        {
            let ghost before = views(out@);
            let mut more = lines(articles[i].as_str());
            let ghost added = views(more@);
            proof {
                let upto = all.subrange(0, i + 1);
                assert(upto.drop_last() =~= all.subrange(0, i as int));
                assert(upto.last() == articles[i as int]@);
            }
            out.append(&mut more);
            proof {
                assert(views(out@) =~= before + added);
            }
            i = i + 1;
        }
        proof {
            assert(all.subrange(0, articles.len() as int) =~= all);
        }
        out
    }

    /// Lays out the document of an issue in the given four fonts: the title,
    /// the text size, margins and page labels, then one text element for each
    /// line that `all_lines` makes of the articles. Whether the
    /// outside crate succeeds is its own matter; where it fails, the failure
    /// is a PDF generation error that carries the crate's message.
    pub fn build(
        &self,
        issue: u32,
        regular: FontData,
        bold: FontData,
        italic: FontData,
        bold_italic: FontData,
        articles: &Vec<String>,
    ) -> (document: Result<Vec<u8>, PhrackIssueManagerError>)
        ensures
            document is Err ==> document->Err_0 is GenPdf,
    {
        let mut doc = new_document(regular, bold, italic, bold_italic);
        let title = issue_title(issue);
        set_title(&mut doc, title.as_str());
        set_font_size(&mut doc, 11);
        decorate(&mut doc, 13, 10);
        let all = self.all_lines(articles);
        let mut i: usize = 0;
        while i < all.len()
            invariant
                i <= all.len(),
            decreases all.len() - i,
        {
            push_line(&mut doc, all[i].as_str());
            i = i + 1;
        }
        let outcome: Result<Vec<u8>, String> = match render(doc) {
            Ok(bytes) => Ok(bytes),
            Err(e) => Err(describe(&e)),
        };
        document_of(outcome)
    }
}

/// What is reported for the outcome of the layout: the bytes as they came
/// where it succeeded, else a PDF generation error with the message given.
pub fn document_of(outcome: Result<Vec<u8>, String>) -> (document: Result<
    Vec<u8>,
    PhrackIssueManagerError,
>)
    ensures
        match outcome {
            Ok(bytes) => document == Ok::<Vec<u8>, PhrackIssueManagerError>(bytes),
            Err(message) => document == Err::<Vec<u8>, PhrackIssueManagerError>(
                PhrackIssueManagerError::GenPdf(message),
            ),
        },
{
    match outcome {
        Ok(bytes) => Ok(bytes),
        Err(message) => Err(pdf_failure(message)),
    }
}

} // verus!
