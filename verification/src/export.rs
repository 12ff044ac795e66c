//! Re-rendering of a mirrored issue: the names of the merged documents and the
//! text that goes into them.

use vstd::prelude::*;
use vstd::string::*;
use crate::config::{join, join_path};
use crate::files::views;
use crate::text::{decimal, push_char, push_decimal};

verus! {

/// The document formats that an issue can be exported to.
#[allow(clippy::upper_case_acronyms)]
#[derive(Clone, Copy, Debug, PartialEq, Eq, Structural)]
pub enum ExportFormat {
    TXT,
    PDF,
    EPUB,
}

/// Where the issues are read from and where the documents go.
#[derive(Clone, Debug)]
pub struct ExportOptions {
    /// The directory that receives the exported file.
    pub output_folder: String,
    /// The directory that holds one directory per mirrored issue.
    pub issues_folder: String,
}

/// Merges the articles of an issue into one text file.
pub struct TxtExporter;

/// Renders the articles of an issue as one PDF document.
pub struct PDFExporter;

/// Renders the articles of an issue as one EPUB book.
pub struct EpubExporter;

impl ExportFormat {
    /// The format's name in lower case, which is also its file extension.
    pub open spec fn name(self) -> Seq<char> {
        match self {
            ExportFormat::TXT => "txt"@,
            ExportFormat::PDF => "pdf"@,
            ExportFormat::EPUB => "epub"@,
        }
    }

    /// Every format, in declaration order.
    pub fn all() -> (formats: Vec<ExportFormat>)
        ensures
            formats@ == seq![ExportFormat::TXT, ExportFormat::PDF, ExportFormat::EPUB],
    {
        vec![ExportFormat::TXT, ExportFormat::PDF, ExportFormat::EPUB]
    }

    /// The format's name in lower case.
    pub fn extension(&self) -> (ext: &'static str)
        ensures
            ext@ == self.name(),
    {
        match self {
            ExportFormat::TXT => "txt",
            ExportFormat::PDF => "pdf",
            ExportFormat::EPUB => "epub",
        }
    }
}

/// The file name of the merged document of an issue.
pub open spec fn merged_name(issue: u32, format: ExportFormat) -> Seq<char> {
    "phrack-"@ + decimal(issue as nat) + "-merged."@ + format.name()
}

/// The title of the merged document of an issue.
pub open spec fn issue_title_text(issue: u32) -> Seq<char> {
    "Phrack Issue "@ + decimal(issue as nat)
}

/// The title of the article at a position, counted from 1.
pub open spec fn article_title_text(number: nat) -> Seq<char> {
    "Article "@ + decimal(number)
}

/// The name of the page of the article at a position, counted from 1.
pub open spec fn article_href_text(number: nat) -> Seq<char> {
    "article"@ + decimal(number) + ".xhtml"@
}

/// What stands for one character in markup.
pub open spec fn escaped_char(c: char) -> Seq<char> {
    if c == '&' {
        "&amp;"@
    } else if c == '<' {
        "&lt;"@
    } else if c == '>' {
        "&gt;"@
    } else if c == '"' {
        "&quot;"@
    } else if c == '\'' {
        "&#39;"@
    } else {
        seq![c]
    }
}

/// A text with each of the five markup characters replaced.
pub open spec fn escaped(s: Seq<char>) -> Seq<char>
    decreases s.len(),
{
    if s.len() == 0 {
        Seq::empty()
    } else {
        escaped(s.drop_last()) + escaped_char(s.last())
    }
}

/// The page before the title.
pub open spec fn page_head() -> Seq<char> {
    "<?xml version=\"1.0\" encoding=\"UTF-8\"?>\n<!DOCTYPE html>\n<html xmlns=\"http://www.w3.org/1999/xhtml\">\n<head>\n    <title>"@
}

/// The page between the title and the text.
pub open spec fn page_middle() -> Seq<char> {
    "</title>\n</head>\n<body>\n<pre>"@
}

/// The page after the text.
pub open spec fn page_tail() -> Seq<char> {
    "</pre>\n</body>\n</html>"@
}

/// The page of one article: the title and the escaped text in their places.
pub open spec fn page_text(title: Seq<char>, content: Seq<char>) -> Seq<char> {
    page_head() + title + page_middle() + escaped(content) + page_tail()
}

/// One page of a book: its file name in the book, its title and its markup.
#[derive(Clone, Debug, PartialEq, Eq)]
pub struct EpubPage {
    pub href: String,
    pub title: String,
    pub content: String,
}

/// The mathematical value of an [`EpubPage`].
pub ghost struct PageView {
    pub href: Seq<char>,
    pub title: Seq<char>,
    pub content: Seq<char>,
}

impl View for EpubPage {
    type V = PageView;

    open spec fn view(&self) -> PageView {
        PageView { href: self.href@, title: self.title@, content: self.content@ }
    }
}

/// The page of the article at position `number`, counted from 1.
pub open spec fn page_of(number: nat, article: Seq<char>) -> PageView {
    PageView {
        href: article_href_text(number),
        title: article_title_text(number),
        content: page_text(article_title_text(number), article),
    }
}

/// The pages of a book, one per article, in the order of the articles.
pub open spec fn pages_of(articles: Seq<Seq<char>>) -> Seq<PageView> {
    Seq::new(articles.len(), |i: int| page_of((i + 1) as nat, articles[i]))
}

/// The views of a list of pages.
pub open spec fn page_views(pages: Seq<EpubPage>) -> Seq<PageView> {
    pages.map_values(|p: EpubPage| p@)
}

/// The articles one after the other, each followed by an empty line.
pub open spec fn merged_text(articles: Seq<Seq<char>>) -> Seq<char>
    decreases articles.len(),
{
    if articles.len() == 0 {
        Seq::empty()
    } else {
        merged_text(articles.drop_last()) + articles.last() + seq!['\n', '\n']
    }
}

/// Replaces the characters `&`, `<`, `>`, `"` and `'` by their entities.
pub fn html_escape(s: &str) -> (out: String)
    ensures
        out@ == escaped(s@),
{
    let mut out = String::new();
    assert(s@.subrange(0, 0) =~= Seq::<char>::empty());
    for c in it: s.chars()
        invariant
            it.seq() == s@,
            out@ == escaped(s@.subrange(0, it.index() as int)),
    {
        let ghost upto = s@.subrange(0, it.index() + 1);
        proof {
            assert(upto.drop_last() =~= s@.subrange(0, it.index() as int));
            assert(upto.last() == c);
        }
        if c == '&' {
            out.append("&amp;");
        } else if c == '<' {
            out.append("&lt;");
        } else if c == '>' {
            out.append("&gt;");
        } else if c == '"' {
            out.append("&quot;");
        } else if c == '\'' {
            out.append("&#39;");
        } else {
            push_char(&mut out, c);
            assert(out@ =~= escaped(upto.drop_last()) + seq![c]);
        }
    }
    assert(s@.subrange(0, s@.len() as int) =~= s@);
    out
}

/// The file name of the merged document of an issue.
pub fn merged_file_name(issue: u32, format: ExportFormat) -> (name: String)
    ensures
        name@ == merged_name(issue, format),
{
    let mut name = String::from_str("phrack-");
    push_decimal(&mut name, issue as u64);
    name.append("-merged.");
    name.append(format.extension());
    name
}

/// The title of the merged document of an issue.
pub fn issue_title(issue: u32) -> (title: String)
    ensures
        title@ == issue_title_text(issue),
{
    let mut title = String::from_str("Phrack Issue ");
    push_decimal(&mut title, issue as u64);
    title
}

impl ExportOptions {
    /// The path of the merged document of an issue.
    pub fn output_path(&self, issue: u32, format: ExportFormat) -> (path: String)
        ensures
            path@ == join_path(self.output_folder@, merged_name(issue, format)),
    {
        let name = merged_file_name(issue, format);
        join(self.output_folder.as_str(), name.as_str())
    }

    /// The directory from which the articles of an issue are read.
    pub fn issue_path(&self, issue: u32) -> (path: String)
        ensures
            path@ == join_path(self.issues_folder@, decimal(issue as nat)),
    {
        crate::files::issue_dir(self.issues_folder.as_str(), issue)
    }
}

impl TxtExporter {
    /// The merged text of an issue from the texts of its articles, in order.
    pub fn merge(&self, articles: &Vec<String>) -> (text: String)
        ensures
            text@ == merged_text(views(articles@)),
    {
        let mut text = String::new();
        let ghost all = views(articles@);
        let mut i: usize = 0;
        assert(all.subrange(0, 0) =~= Seq::<Seq<char>>::empty());
        while i < articles.len()
            invariant
                i <= articles.len(),
                all == views(articles@),
                text@ == merged_text(all.subrange(0, i as int)),
            decreases articles.len() - i,
        {
            proof {
                let upto = all.subrange(0, i + 1);
                assert(upto.drop_last() =~= all.subrange(0, i as int));
                assert(upto.last() == articles[i as int]@);
                reveal_strlit("\n\n");
                assert("\n\n"@ =~= seq!['\n', '\n']);
            }
            text.append(articles[i].as_str());
            text.append("\n\n");
            i = i + 1;
        }
        assert(all.subrange(0, articles.len() as int) =~= all);
        text
    }
}

impl EpubExporter {
    /// The title of the article at `number`, counted from 1.
    pub fn article_title(&self, number: usize) -> (title: String)
        ensures
            title@ == article_title_text(number as nat),
    {
        let mut title = String::from_str("Article ");
        push_decimal(&mut title, number as u64);
        title
    }

    /// The name of the page of the article at `number`, counted from 1.
    pub fn article_href(&self, number: usize) -> (href: String)
        ensures
            href@ == article_href_text(number as nat),
    {
        let mut href = String::from_str("article");
        push_decimal(&mut href, number as u64);
        href.append(".xhtml");
        href
    }

    /// The pages of the book of an issue from the texts of its articles: one
    /// page per article, in order, numbered from 1.
    pub fn pages(&self, articles: &Vec<String>) -> (pages: Vec<EpubPage>)
        ensures
            page_views(pages@) == pages_of(views(articles@)),
    {
        let mut pages: Vec<EpubPage> = Vec::new();
        let mut i: usize = 0;
        while i < articles.len()
            invariant
                i <= articles.len(),
                pages.len() == i,
                forall|j: int|
                    0 <= j < i ==> (#[trigger] pages[j])@ == page_of((j + 1) as nat, articles[j]@),
            decreases articles.len() - i,
        {
            let number: usize = i + 1;
            let title = self.article_title(number);
            let href = self.article_href(number);
            let content = self.page(title.as_str(), articles[i].as_str());
            pages.push(EpubPage { href, title, content });
            i = i + 1;
        }
        proof {
            assert(page_views(pages@) =~= pages_of(views(articles@)));
        }
        pages
    }

    /// The page of one article.
    pub fn page(&self, title: &str, content: &str) -> (page: String)
        ensures
            page@ == page_text(title@, content@),
    {
        let body = html_escape(content);
        let mut page = String::from_str(
            "<?xml version=\"1.0\" encoding=\"UTF-8\"?>\n<!DOCTYPE html>\n<html xmlns=\"http://www.w3.org/1999/xhtml\">\n<head>\n    <title>",
        );
        page.append(title);
        page.append("</title>\n</head>\n<body>\n<pre>");
        page.append(body.as_str());
        page.append("</pre>\n</body>\n</html>");
        page
    }
}

/// Escaping goes character by character: the escaped form of two texts put
/// together is the two escaped forms put together.
pub proof fn lemma_escaped_concat(a: Seq<char>, b: Seq<char>)
    ensures
        escaped(a + b) == escaped(a) + escaped(b),
    decreases b.len(),
{
    if b.len() == 0 {
        assert(a + b =~= a);
        assert(escaped(a) + escaped(b) =~= escaped(a));
    } else {
        lemma_escaped_concat(a, b.drop_last());
        assert((a + b).drop_last() =~= a + b.drop_last());
        assert((a + b).last() == b.last());
        assert(escaped(a + b) =~= escaped(a) + escaped(b));
    }
}

/// Whether a character opens or closes markup or a quoted value.
pub open spec fn is_markup(c: char) -> bool {
    c == '<' || c == '>' || c == '"' || c == '\''
}

/// An escaped text holds none of the characters `<`, `>`, `"` and `'`.
pub proof fn lemma_escaped_is_plain(s: Seq<char>)
    ensures
        forall|i: int| 0 <= i < escaped(s).len() ==> !is_markup(#[trigger] escaped(s)[i]),
    decreases s.len(),
{
    if s.len() > 0 {
        let init = escaped(s.drop_last());
        let tail = escaped_char(s.last());
        lemma_escaped_is_plain(s.drop_last());
        reveal_strlit("&amp;");
        reveal_strlit("&lt;");
        reveal_strlit("&gt;");
        reveal_strlit("&quot;");
        reveal_strlit("&#39;");
        assert forall|k: int| 0 <= k < tail.len() implies !is_markup(#[trigger] tail[k]) by {}
        assert forall|i: int| 0 <= i < escaped(s).len() implies !is_markup(
            #[trigger] escaped(s)[i],
        ) by {
            if i < init.len() {
                assert(escaped(s)[i] == init[i]);
            } else {
                assert(escaped(s)[i] == tail[i - init.len()]);
            }
        }
    }
}

} // verus!
