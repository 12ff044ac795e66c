use genpdf::fonts::FontData;
use phrack_issue_manager::epub::{book_of, epub_failure, stylesheet};
use phrack_issue_manager::error::PhrackIssueManagerError;
use phrack_issue_manager::export::{
    html_escape, issue_title, merged_file_name, EpubExporter, ExportFormat, ExportOptions,
    PDFExporter, TxtExporter,
};
use phrack_issue_manager::pdf::{document_of, lines, page_label, pdf_failure};

#[test]
fn markup_characters_are_escaped() {
    assert_eq!(html_escape(""), "");
    assert_eq!(html_escape("plain text"), "plain text");
    assert_eq!(html_escape("a & b"), "a &amp; b");
    assert_eq!(html_escape("<pre>"), "&lt;pre&gt;");
    assert_eq!(html_escape("\"it's\""), "&quot;it&#39;s&quot;");
    assert_eq!(html_escape("&amp;"), "&amp;amp;");
    assert_eq!(html_escape("caf\u{e9} <\u{1f600}>"), "caf\u{e9} &lt;\u{1f600}&gt;");
}

#[test]
fn escaping_two_texts_is_escaping_each() {
    let a = "if a<b && ";
    let b = "b>'c'";
    assert_eq!(html_escape(&format!("{}{}", a, b)), format!("{}{}", html_escape(a), html_escape(b)));
}

#[test]
fn formats_and_merged_names() {
    assert_eq!(
        ExportFormat::all(),
        vec![ExportFormat::TXT, ExportFormat::PDF, ExportFormat::EPUB]
    );
    assert_eq!(ExportFormat::TXT.extension(), "txt");
    assert_eq!(merged_file_name(42, ExportFormat::TXT), "phrack-42-merged.txt");
    assert_eq!(merged_file_name(1, ExportFormat::PDF), "phrack-1-merged.pdf");
    assert_eq!(merged_file_name(70, ExportFormat::EPUB), "phrack-70-merged.epub");
    assert_eq!(issue_title(42), "Phrack Issue 42");
    let options =
        ExportOptions { output_folder: "/out".to_string(), issues_folder: "/data/".to_string() };
    assert_eq!(options.output_path(42, ExportFormat::EPUB), "/out/phrack-42-merged.epub");
    assert_eq!(options.issue_path(42), "/data/42");
}

#[test]
fn merged_text_puts_an_empty_line_after_each_article() {
    let articles = vec!["one".to_string(), "two\n".to_string(), String::new()];
    assert_eq!(TxtExporter.merge(&articles), "one\n\ntwo\n\n\n\n\n");
    assert_eq!(TxtExporter.merge(&Vec::new()), "");
}

#[test]
fn article_page_holds_title_and_escaped_text() {
    let exporter = EpubExporter;
    assert_eq!(exporter.article_title(3), "Article 3");
    assert_eq!(exporter.article_href(12), "article12.xhtml");
    let page = exporter.page("Article 1", "x < y & {title} {content}");
    let expected = "<?xml version=\"1.0\" encoding=\"UTF-8\"?>\n<!DOCTYPE html>\n<html xmlns=\"http://www.w3.org/1999/xhtml\">\n<head>\n    <title>Article 1</title>\n</head>\n<body>\n<pre>x &lt; y &amp; {title} {content}</pre>\n</body>\n</html>";
    assert_eq!(page, expected);
}

#[test]
fn text_is_split_into_lines() {
    assert_eq!(lines(""), Vec::<String>::new());
    assert_eq!(lines("one"), vec!["one"]);
    assert_eq!(lines("one\n"), vec!["one"]);
    assert_eq!(lines("one\ntwo"), vec!["one", "two"]);
    assert_eq!(lines("one\r\ntwo\r\n"), vec!["one", "two"]);
    assert_eq!(lines("\n\nx"), vec!["", "", "x"]);
    assert_eq!(lines("a\rb\r"), vec!["a\rb\r"]);
    assert_eq!(lines("a\r\r\n"), vec!["a\r"]);
    let sample = "first\r\n\nthird \u{e9}\nlast\r";
    let expected: Vec<String> = sample.lines().map(|l| l.to_string()).collect();
    assert_eq!(lines(sample), expected);
}

#[test]
fn page_labels_are_numbered() {
    assert_eq!(page_label(1), "Page 1");
    assert_eq!(page_label(120), "Page 120");
}

#[test]
fn failures_carry_the_message() {
    assert_eq!(
        epub_failure("bad".to_string()),
        PhrackIssueManagerError::EpubGeneration("bad".to_string())
    );
    assert_eq!(pdf_failure("bad".to_string()), PhrackIssueManagerError::GenPdf("bad".to_string()));
    assert!(stylesheet().starts_with("\npre {\n    font-family: monospace"));
    assert!(stylesheet().ends_with("body {\n    margin: 0;\n    padding: 0;\n}\n"));
}

#[test]
fn book_is_a_zip_archive_with_one_page_per_article() {
    let articles = vec!["first <article>".to_string(), "second".to_string()];
    let book = EpubExporter.build(42, &articles).unwrap();
    assert_eq!(&book[0..2], b"PK");
    let has = |needle: &str| book.windows(needle.len()).any(|w| w == needle.as_bytes());
    assert!(has("OEBPS/article1.xhtml"));
    assert!(has("OEBPS/article2.xhtml"));
    assert!(!has("OEBPS/article3.xhtml"));
    assert!(has("stylesheet.css"));
}

#[test]
fn document_is_a_pdf_file() {
    let path = "/usr/share/fonts/truetype/dejavu/DejaVuSansMono.ttf";
    let (Ok(regular), Ok(bold), Ok(italic), Ok(bold_italic)) = (
        FontData::load(path, None),
        FontData::load(path, None),
        FontData::load(path, None),
        FontData::load(path, None),
    ) else {
        println!("no font at {}", path);
        return;
    };
    let articles = vec!["first line\nsecond line\r\n".to_string(), "other article".to_string()];
    let document = PDFExporter.build(42, regular, bold, italic, bold_italic, &articles).unwrap();
    assert_eq!(&document[0..5], b"%PDF-");
}

#[test]
fn document_takes_any_text() {
    let path = "/usr/share/fonts/truetype/dejavu/DejaVuSansMono.ttf";
    let load = || FontData::load(path, None);
    let (Ok(regular), Ok(bold), Ok(italic), Ok(bold_italic)) = (load(), load(), load(), load())
    else {
        println!("no font at {}", path);
        return;
    };
    let empty = PDFExporter.build(1, regular, bold, italic, bold_italic, &Vec::new());
    assert!(empty.is_ok());
    let (Ok(regular), Ok(bold), Ok(italic), Ok(bold_italic)) = (load(), load(), load(), load())
    else {
        return;
    };
    let long_line = "x".repeat(5000);
    let many_lines = "line\n".repeat(200);
    let odd = "tab\there \u{1f600} \u{4e2d}\u{6587} \u{0} \u{7f} end".to_string();
    let articles = vec![long_line, many_lines, odd, String::new(), "\n\n".to_string()];
    let result = PDFExporter.build(2, regular, bold, italic, bold_italic, &articles);
    match result {
        Ok(document) => assert_eq!(&document[0..5], b"%PDF-"),
        Err(e) => assert!(matches!(e, PhrackIssueManagerError::GenPdf(_))),
    }
}

#[test]
fn book_takes_any_text() {
    let empty = EpubExporter.build(0, &Vec::new()).unwrap();
    assert_eq!(&empty[0..2], b"PK");
    let odd = vec![
        "tab\there \u{1f600} \u{0} & <x> {title}".to_string(),
        String::new(),
        "x".repeat(100000),
    ];
    let book = EpubExporter.build(u32::MAX, &odd).unwrap();
    assert_eq!(&book[0..2], b"PK");
}

#[test]
fn outcomes_of_the_outside_work_are_reported_as_they_came() {
    assert_eq!(book_of(Ok(vec![1, 2, 3])), Ok(vec![1, 2, 3]));
    assert_eq!(book_of(Ok(Vec::new())), Ok(Vec::new()));
    assert_eq!(
        book_of(Err("no zip".to_string())),
        Err(PhrackIssueManagerError::EpubGeneration("no zip".to_string()))
    );
    assert_eq!(document_of(Ok(vec![9])), Ok(vec![9]));
    assert_eq!(
        document_of(Err("no page".to_string())),
        Err(PhrackIssueManagerError::GenPdf("no page".to_string()))
    );
}
