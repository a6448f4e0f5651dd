use kb_app::archive::BoundedArchive;
use kb_app::docx::{parse_title, parse_document};
use kb_app::epub::rootfile;
use kb_app::extract::MediaType;
use kb_app::review::{review_changes, ChangeKind, CurrentSource, RecordedSource};
use kb_app::source_io::hash;
use kb_app::xml::{local, read_events, XmlEvent};

#[test]
fn xml_events_name_elements_and_text() {
    let events = read_events(b"<a:root x=\"1\"><b>hi</b><c/></a:root>", false);
    assert!(matches!(&events[0], XmlEvent::Start(e) if e.name == b"a:root".to_vec()));
    assert!(matches!(&events[2], XmlEvent::Text(Ok(t)) if t == "hi"));
    assert!(matches!(events.last(), Some(XmlEvent::Eof)));
    assert_eq!(local(b"w:p"), b"p".to_vec());
    assert_eq!(local(b"p"), b"p".to_vec());
}

#[test]
fn malformed_xml_is_an_error_event() {
    let events = read_events(b"<a><b></a>", false);
    assert!(events.iter().any(|e| matches!(e, XmlEvent::Error(_))));
}

#[test]
fn docx_titles_come_from_core_properties() {
    let core = read_events(b"<cp:coreProperties><dc:title>  My Doc </dc:title></cp:coreProperties>", false);
    assert_eq!(parse_title(&core).unwrap().as_deref(), Some("My Doc"));
    let none = read_events(b"<cp:coreProperties></cp:coreProperties>", false);
    assert_eq!(parse_title(&none).unwrap(), None);
}

#[test]
fn docx_paragraphs_become_blocks() {
    let body = read_events(
        b"<w:document><w:body><w:p><w:r><w:t>Hello</w:t></w:r><w:r><w:t xml:space=\"preserve\"> world</w:t></w:r></w:p></w:body></w:document>",
        false,
    );
    let (blocks, links) = parse_document(&body, &Vec::new(), &Vec::new()).unwrap();
    assert_eq!(blocks.len(), 1);
    assert!(blocks[0].text.contains("Hello world"));
    assert!(links.is_empty());
}

#[test]
fn epub_containers_name_the_package() {
    let container = read_events(
        b"<container><rootfiles><rootfile full-path=\"OEBPS/content.opf\" media-type=\"application/oebps-package+xml\"/></rootfiles></container>",
        false,
    );
    assert_eq!(rootfile(&container).unwrap(), "OEBPS/content.opf");
    let empty = read_events(b"<container></container>", false);
    assert_eq!(rootfile(&empty).unwrap_err(), "EPUB container has no rootfile.");
}

#[test]
fn archives_that_are_not_zip_files_are_refused() {
    let err = BoundedArchive::open(b"not a zip".to_vec(), "EPUB").err().unwrap();
    assert!(err.starts_with("Cannot open EPUB archive: "));
}

#[test]
fn review_reports_added_modified_unchanged_and_deleted() {
    let current = vec![
        CurrentSource { id: "a".to_owned(), sha256: hash(b"A"), media_type: MediaType::PlainText, bytes: b"A".to_vec() },
        CurrentSource { id: "b".to_owned(), sha256: hash(b"B2"), media_type: MediaType::PlainText, bytes: b"B2".to_vec() },
        CurrentSource { id: "c".to_owned(), sha256: hash(b"C"), media_type: MediaType::PlainText, bytes: b"C".to_vec() },
    ];
    let previous = vec![
        RecordedSource { id: "b".to_owned(), sha256: hash(b"B1"), present: true },
        RecordedSource { id: "c".to_owned(), sha256: hash(b"C"), present: true },
    ];
    let deleted = vec![RecordedSource { id: "d".to_owned(), sha256: hash(b"D"), present: true }];
    let (changes, unchanged) = review_changes(&current, &previous, &deleted);
    assert_eq!(unchanged, 1);
    assert_eq!(changes.len(), 3);
    assert_eq!(changes[0].kind, ChangeKind::Added);
    assert_eq!(changes[0].source, "a");
    assert!(changes[0].extraction.is_some());
    assert_eq!(changes[1].kind, ChangeKind::Modified);
    assert_eq!(changes[1].previous_sha256, Some(hash(b"B1")));
    assert_eq!(changes[2].kind, ChangeKind::Deleted);
    assert_eq!(changes[2].source, "d");
}

#[test]
fn review_changes_come_in_source_order() {
    let current = vec![
        CurrentSource { id: "z/new.md".to_owned(), sha256: hash(b"N"), media_type: MediaType::PlainText, bytes: b"N".to_vec() },
        CurrentSource { id: "m/x.md".to_owned(), sha256: hash(b"X"), media_type: MediaType::PlainText, bytes: b"X".to_vec() },
    ];
    let deleted = vec![RecordedSource { id: "a/old.md".to_owned(), sha256: hash(b"O"), present: true }];
    let (changes, unchanged) = review_changes(&current, &Vec::new(), &deleted);
    assert_eq!(unchanged, 0);
    let order: Vec<&str> = changes.iter().map(|c| c.source.as_str()).collect();
    assert_eq!(order, vec!["a/old.md", "m/x.md", "z/new.md"]);
    assert!(changes[0].extraction.is_none());
    assert!(changes[1].extraction.is_some());
}
