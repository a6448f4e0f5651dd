use kb_app::error::ErrorCode;
use kb_app::extract::MediaType;
use kb_app::resource_read::{
    markdown_links, media_content_type, paginate, parse_cursor, resolve_wiki_link, source_resource, vault_resource,
    wiki_link_targets, LoadedResource, ResourceKind,
};
use kb_app::source_io::hash;

fn loaded(uri: &str, content: Option<&str>) -> LoadedResource {
    LoadedResource {
        uri: uri.to_owned(),
        kind: ResourceKind::Wiki,
        content_type: "text/markdown".to_owned(),
        content: content.map(str::to_owned),
        sha256: "00ff".to_owned(),
        links: Vec::new(),
        warnings: Vec::new(),
    }
}

#[test]
fn wiki_links_resolve_against_the_page_directory() {
    assert_eq!(resolve_wiki_link("Wiki/articles/a.md", "b.md").as_deref(), Some("Wiki/articles/b.md"));
    assert_eq!(resolve_wiki_link("Wiki/articles/a.md", "../research/c.MD#part").as_deref(), Some("Wiki/research/c.MD"));
    assert_eq!(resolve_wiki_link("Wiki/articles/a.md", "./x/./y.md").as_deref(), Some("Wiki/articles/x/y.md"));
    assert_eq!(resolve_wiki_link("Wiki/articles/a.md", "../../KB.md"), None);
    assert_eq!(resolve_wiki_link("Wiki/a.md", "../../../x.md"), None);
    assert_eq!(resolve_wiki_link("Wiki/a.md", "/Wiki/b.md"), None);
    assert_eq!(resolve_wiki_link("Wiki/a.md", "mailto:x.md"), None);
    assert_eq!(resolve_wiki_link("Wiki/a.md", "#top"), None);
    assert_eq!(resolve_wiki_link("Wiki/a.md", "b.txt"), None);
}

#[test]
fn markdown_links_are_external_or_vault_pages() {
    let text = "See [docs](https://example.test/d) and [next](b.md) and [gone](c.md) and [skip](notes.txt).";
    let present = vec!["Wiki/articles/b.md".to_owned()];
    let links = markdown_links("Wiki/articles/a.md", "vault-1", text, &present);
    assert_eq!(links.len(), 3);
    assert_eq!(links[0].label, "docs");
    assert!(links[0].external);
    assert_eq!(links[0].exists, None);
    assert_eq!(links[1].target_uri, "kb-vault://vault-1/Wiki/articles/b.md");
    assert_eq!(links[1].exists, Some(true));
    assert!(!links[1].external);
    assert_eq!(links[2].exists, Some(false));
    assert_eq!(
        wiki_link_targets("Wiki/articles/a.md", text),
        vec!["Wiki/articles/b.md".to_owned(), "Wiki/articles/c.md".to_owned()]
    );
}

#[test]
fn a_label_opens_at_the_last_bracket_and_scanning_stops_without_a_close() {
    let links = markdown_links("Wiki/a.md", "v", "[a [b](x.md) tail [c](y.md", &Vec::new());
    assert_eq!(links.len(), 1);
    assert_eq!(links[0].label, "b");
    assert_eq!(links[0].target_uri, "kb-vault://v/Wiki/x.md");
}

#[test]
fn content_types_follow_the_media() {
    assert_eq!(media_content_type(MediaType::Markdown), "text/markdown");
    assert_eq!(media_content_type(MediaType::Epub), "application/epub+zip");
    assert_eq!(media_content_type(MediaType::Other), "application/octet-stream");
}

#[test]
fn a_resource_without_text_is_one_complete_page() {
    let page = paginate(loaded("kb-vault://v/x", None), None, 10).unwrap();
    assert!(page.complete);
    assert!(!page.text_available);
    assert_eq!(page.content, None);
    assert_eq!(page.next_cursor, None);
}

#[test]
fn pages_follow_their_cursors_to_the_end() {
    let uri = "kb-vault://v/Wiki/a.md";
    let first = paginate(loaded(uri, Some("héllo world")), None, 5).unwrap();
    assert_eq!(first.content.as_deref(), Some("héllo"));
    assert!(!first.complete);
    let cursor = first.next_cursor.clone().unwrap();
    assert_eq!(cursor, format!("v1:{}:00ff:5", hash(uri.as_bytes())));
    let second = paginate(loaded(uri, Some("héllo world")), Some(&cursor), 100).unwrap();
    assert_eq!(second.content.as_deref(), Some(" world"));
    assert!(second.complete);
    assert_eq!(second.next_cursor, None);
}

#[test]
fn foreign_or_overlong_cursors_are_stale() {
    let uri = "kb-vault://v/Wiki/a.md";
    let other = format!("v1:{}:00ff:1", hash(b"kb-vault://v/Wiki/b.md"));
    let err = paginate(loaded(uri, Some("abc")), Some(&other), 2).unwrap_err();
    assert_eq!(err.code, ErrorCode::ResourceCursorStale);
    assert_eq!(err.resource_uri.as_deref(), Some(uri));
    let past = format!("v1:{}:00ff:4", hash(uri.as_bytes()));
    assert_eq!(paginate(loaded(uri, Some("abc")), Some(&past), 2).unwrap_err().code, ErrorCode::ResourceCursorStale);
}

#[test]
fn cursors_have_four_fields() {
    assert_eq!(parse_cursor("v1:h:s:12", "h", "s", "u").unwrap(), 12);
    assert_eq!(parse_cursor("v1:h:s:+7", "h", "s", "u").unwrap(), 7);
    assert!(parse_cursor("v1:h:s:12:9", "h", "s", "u").is_err());
    assert!(parse_cursor("v2:h:s:12", "h", "s", "u").is_err());
    assert!(parse_cursor("v1:h:s:-1", "h", "s", "u").is_err());
    assert!(parse_cursor("v1:h:s:", "h", "s", "u").is_err());
}

#[test]
fn vault_pages_are_rules_or_wiki() {
    let rules = vault_resource("kb-vault://v/KB.md", "KB.md", "v", b"# Rules\n".to_vec(), &Vec::new()).unwrap();
    assert_eq!(rules.kind, ResourceKind::Rules);
    assert_eq!(rules.content.as_deref(), Some("# Rules\n"));
    assert_eq!(rules.sha256, hash(b"# Rules\n"));
    let page = vault_resource("u", "Wiki/a.md", "v", b"[b](b.md)".to_vec(), &Vec::new()).unwrap();
    assert_eq!(page.kind, ResourceKind::Wiki);
    assert_eq!(page.links.len(), 1);
    let err = vault_resource("u", "Wiki/a.md", "v", vec![0xff, 0xfe], &Vec::new()).unwrap_err();
    assert_eq!(err.code, ErrorCode::ResourceNotReadable);
    assert_eq!(err.message, "Markdown resource is not valid UTF-8.");
}

#[test]
fn saved_sources_are_checked_and_read() {
    let bytes = b"plain text\n".to_vec();
    let sha = hash(&bytes);
    let r = source_resource("kb-source://x?sha256=1", ".objects/x", MediaType::PlainText, &sha, bytes.clone()).unwrap();
    assert_eq!(r.kind, ResourceKind::Source);
    assert_eq!(r.content.as_deref(), Some("plain text\n"));
    assert_eq!(r.content_type, "text/plain");
    let err = source_resource("u", ".objects/x", MediaType::PlainText, "bad", bytes).unwrap_err();
    assert_eq!(err.code, ErrorCode::SourceIntegrityFailed);
    let pdf = source_resource("u", ".objects/p", MediaType::Pdf, &hash(b"%PDF"), b"%PDF".to_vec()).unwrap();
    assert_eq!(pdf.content, None);
}

#[test]
fn pages_read_in_turn_join_to_the_whole_text() {
    let uri = "kb-vault://v/Wiki/long.md";
    let text = "one two three four five six seven";
    let mut cursor: Option<String> = None;
    let mut joined = String::new();
    let mut pages = 0;
    loop {
        let page = paginate(loaded(uri, Some(text)), cursor.as_deref(), 4).unwrap();
        let content = page.content.unwrap();
        assert!(content.chars().count() <= 4);
        assert_eq!(page.complete, page.next_cursor.is_none());
        joined.push_str(&content);
        pages += 1;
        if page.complete {
            break;
        }
        cursor = page.next_cursor;
    }
    assert_eq!(joined, text);
    assert!(pages <= text.chars().count() + 1);
}
