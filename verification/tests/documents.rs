use std::io::Write;

use kb_app::docx::{docx_content, parse_document};
use kb_app::xml::read_events;
use kb_app::epub::epub_content;
use kb_app::extract::{extract_bytes, ExtractionStatus, MediaType, SourceLocation};
use kb_app::html::parse;

fn zipped(files: &[(&str, &str)]) -> Vec<u8> {
    let mut writer = zip::ZipWriter::new(std::io::Cursor::new(Vec::new()));
    let options = zip::write::SimpleFileOptions::default().compression_method(zip::CompressionMethod::Stored);
    for (name, content) in files {
        writer.start_file(*name, options).unwrap();
        writer.write_all(content.as_bytes()).unwrap();
    }
    writer.finish().unwrap().into_inner()
}

#[test]
fn html_pages_give_title_links_and_sections() {
    let page = b"<html><head><title> The  Page </title></head><body><h1>Intro</h1><p>Hello there.</p><a href=\"next.html\">Next</a></body></html>";
    let content = parse(page).unwrap();
    assert_eq!(content.title.as_deref(), Some("The Page"));
    assert_eq!(content.links.len(), 1);
    assert_eq!(content.links[0].target, "next.html");
    assert!(content.sections.iter().any(|b| b.text.contains("Hello there.")));
}

#[test]
fn html_that_is_not_utf8_is_refused() {
    let err = parse(&[0xff, 0xfe, 0x00]).err().unwrap();
    assert_eq!(err, "Expected UTF-8 HTML input.");
}

#[test]
fn html_documents_locate_blocks_by_position() {
    let d = extract_bytes(MediaType::Html, b"<html><body><p>One</p><p>Two</p></body></html>".to_vec());
    assert_eq!(d.extractor_id, "builtin-html");
    assert_eq!(d.status, ExtractionStatus::TextReady);
    assert!(!d.blocks.is_empty());
    assert!(matches!(d.blocks[0].location, Some(SourceLocation::Html { block: 1 })));
}

#[test]
fn docx_packages_give_their_body_text() {
    let bytes = zipped(&[
        ("docProps/core.xml", "<cp:coreProperties><dc:title>Report</dc:title></cp:coreProperties>"),
        (
            "word/document.xml",
            "<w:document><w:body><w:p><w:r><w:t>Quarterly results</w:t></w:r></w:p></w:body></w:document>",
        ),
    ]);
    let (title, links, blocks) = docx_content(bytes).unwrap();
    assert_eq!(title.as_deref(), Some("Report"));
    assert!(links.is_empty());
    assert_eq!(blocks.len(), 1);
    assert_eq!(blocks[0].text, "Quarterly results");
}

#[test]
fn docx_packages_need_a_body() {
    let bytes = zipped(&[("docProps/core.xml", "<cp:coreProperties/>")]);
    assert_eq!(docx_content(bytes).err().unwrap(), "DOCX archive is missing word/document.xml.");
}

#[test]
fn docx_bodies_without_paragraphs_are_refused() {
    let bytes = zipped(&[("word/document.xml", "<w:document><w:body></w:body></w:document>")]);
    assert_eq!(docx_content(bytes).err().unwrap(), "DOCX does not contain readable paragraphs or tables.");
}

#[test]
fn epub_spines_give_located_text_and_resolved_links() {
    let bytes = zipped(&[
        (
            "META-INF/container.xml",
            "<container><rootfiles><rootfile full-path=\"OEBPS/content.opf\"/></rootfiles></container>",
        ),
        (
            "OEBPS/content.opf",
            "<package><metadata><dc:title>Book</dc:title></metadata><manifest><item id=\"c1\" href=\"text/one.xhtml\"/></manifest><spine><itemref idref=\"c1\"/></spine></package>",
        ),
        (
            "OEBPS/text/one.xhtml",
            "<html><body><p>Chapter one.</p><a href=\"two.xhtml\">Two</a></body></html>",
        ),
    ]);
    let (title, links, blocks) = epub_content(bytes).unwrap();
    assert_eq!(title.as_deref(), Some("Book"));
    assert!(blocks.iter().any(|b| b.text.contains("Chapter one.")));
    assert!(matches!(&blocks[0].location, Some(SourceLocation::Epub { resource, block: 1 }) if resource == "OEBPS/text/one.xhtml"));
    assert_eq!(links.len(), 1);
    assert_eq!(links[0].target, "OEBPS/text/two.xhtml");
}

#[test]
fn epub_spines_must_name_manifest_items() {
    let bytes = zipped(&[
        (
            "META-INF/container.xml",
            "<container><rootfiles><rootfile full-path=\"content.opf\"/></rootfiles></container>",
        ),
        ("content.opf", "<package><manifest></manifest><spine><itemref idref=\"missing\"/></spine></package>"),
    ]);
    assert_eq!(epub_content(bytes).err().unwrap(), "EPUB spine references unknown manifest item: missing");
}

#[test]
fn docx_blocks_are_trimmed_and_links_use_relationship_targets() {
    let body = read_events(
        b"<w:document><w:body><w:p><w:r><w:t xml:space=\"preserve\">  Spaced text  </w:t></w:r><w:hyperlink r:id=\"rId1\"><w:r><w:t>site</w:t></w:r></w:hyperlink><w:hyperlink r:id=\"rId9\"><w:r><w:t>gone</w:t></w:r></w:hyperlink></w:p><w:p><w:r><w:t>   </w:t></w:r></w:p></w:body></w:document>",
        false,
    );
    let rels = vec![("rId1".to_owned(), "https://example.com/".to_owned())];
    let (blocks, links) = parse_document(&body, &Vec::new(), &rels).unwrap();
    assert_eq!(blocks.len(), 1);
    assert_eq!(blocks[0].text, blocks[0].text.trim());
    assert!(!blocks[0].text.is_empty());
    assert_eq!(blocks[0].line_start, None);
    assert!(matches!(blocks[0].location, Some(SourceLocation::Docx { paragraph: 1, table: None, row: None })));
    assert_eq!(links.len(), 1);
    assert_eq!(links[0].target, "https://example.com/");
}
