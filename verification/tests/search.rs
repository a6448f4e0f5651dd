use kb_app::extract::MediaType;
use kb_app::error::{ErrorCode, KbError};
use kb_app::search::{
    count_matches, index_fallback, phrase_terms, query_phrase, search_scope, search_scopes, snippet, source_document,
    wiki_document, SearchBackend, SearchDocument, SearchMatchMode, SearchScope,
};

fn chars(s: &str) -> Vec<char> {
    s.chars().collect()
}

fn markdown(path: &str, title: &str, text: &str) -> SearchDocument {
    SearchDocument {
        path: path.to_owned(),
        content_path: path.to_owned(),
        source_uri: None,
        title: title.to_owned(),
        media: MediaType::Markdown,
        bytes: text.as_bytes().to_vec(),
        annotation: None,
    }
}

#[test]
fn matches_count_left_to_right_without_overlap() {
    assert_eq!(count_matches(&chars("aaaa"), &chars("aa")), 2);
    assert_eq!(count_matches(&chars("abcabc"), &chars("bc")), 2);
    assert_eq!(count_matches(&chars("abc"), &chars("x")), 0);
    assert_eq!(count_matches(&chars("abc"), &chars("")), 4);
}

#[test]
fn phrase_terms_keep_each_word_once() {
    let terms = phrase_terms(&chars("rust  borrow rust"));
    assert_eq!(terms, vec![chars("rust"), chars("borrow")]);
}

#[test]
fn snippet_is_the_first_matching_line_cut_to_240() {
    let text = "intro\nRust borrow checker\nmore rust";
    assert_eq!(snippet(text, &chars("rust"), SearchMatchMode::Relevant), "Rust borrow checker");
    assert_eq!(snippet(text, &chars("rust"), SearchMatchMode::Exact), "more rust");
    assert_eq!(snippet(text, &chars("zzz"), SearchMatchMode::Exact), text);
    let long = "x".repeat(300);
    assert_eq!(snippet(&long, &chars("x"), SearchMatchMode::Exact).chars().count(), 240);
}

#[test]
fn relevant_search_ranks_by_matches_then_terms() {
    let docs = vec![
        markdown("Wiki/articles/a.md", "a.md", "# Alpha\nrust once\n"),
        markdown("Wiki/articles/b.md", "b.md", "# Beta\nrust and rust again\n"),
        markdown("Wiki/articles/c.md", "c.md", "# Gamma\nnothing here\n"),
    ];
    let hits = search_scope(docs, "rust", 10, SearchMatchMode::Relevant);
    assert_eq!(hits.len(), 2);
    assert_eq!(hits[0].path, "Wiki/articles/b.md");
    assert_eq!(hits[0].match_count, 2);
    assert_eq!(hits[0].title, "Beta");
    assert_eq!(hits[0].heading.as_deref(), Some("Beta"));
    assert_eq!(hits[1].path, "Wiki/articles/a.md");
    assert_eq!(hits[1].snippet, "rust once");
}

#[test]
fn search_keeps_only_the_limit() {
    let docs = vec![
        markdown("Wiki/articles/a.md", "a.md", "rust\n"),
        markdown("Wiki/articles/b.md", "b.md", "rust\n"),
        markdown("Wiki/articles/c.md", "c.md", "rust\n"),
    ];
    let hits = search_scope(docs, "rust", 2, SearchMatchMode::Relevant);
    assert_eq!(hits.len(), 2);
    assert_eq!(hits[0].path, "Wiki/articles/a.md");
    assert_eq!(hits[1].path, "Wiki/articles/b.md");
}

#[test]
fn exact_search_is_case_sensitive() {
    let docs = vec![markdown("Wiki/articles/a.md", "a.md", "Rust rust\n")];
    let hits = search_scope(docs, "Rust", 10, SearchMatchMode::Exact);
    assert_eq!(hits.len(), 1);
    assert_eq!(hits[0].match_count, 1);
    let none = search_scope(vec![markdown("Wiki/a.md", "a.md", "rust\n")], "Rust", 10, SearchMatchMode::Exact);
    assert!(none.is_empty());
}

#[test]
fn a_matching_title_alone_is_one_hit() {
    let docs = vec![markdown("Wiki/articles/ownership.md", "Ownership notes", "nothing relevant\n")];
    let hits = search_scope(docs, "ownership", 10, SearchMatchMode::Relevant);
    assert_eq!(hits.len(), 1);
    assert_eq!(hits[0].title, "Ownership notes");
    assert_eq!(hits[0].snippet, "Ownership notes");
    assert_eq!(hits[0].heading, None);
    assert_eq!(hits[0].match_count, 1);
}

#[test]
fn annotations_are_searched_at_the_record_path() {
    let mut doc = markdown("Wiki/external-sources/records/x.md", "x", "plain body\n");
    doc.content_path = ".objects/x".to_owned();
    doc.media = MediaType::PlainText;
    doc.annotation = Some("# Note\nborrow checker\n".to_owned());
    let hits = search_scope(vec![doc], "borrow", 10, SearchMatchMode::Relevant);
    assert_eq!(hits.len(), 1);
    assert_eq!(hits[0].content_path, "Wiki/external-sources/records/x.md");
    assert_eq!(hits[0].title, "Note");
}

#[test]
fn wiki_documents_are_markdown_files_titled_by_name() {
    let d = wiki_document("Wiki/articles/Intro.MD", b"x".to_vec()).unwrap();
    assert_eq!(d.title, "Intro.MD");
    assert_eq!(d.media, MediaType::Markdown);
    assert!(wiki_document("Wiki/articles/data.json", Vec::new()).is_none());
}

#[test]
fn source_documents_check_their_digest() {
    let sha = "ba7816bf8f01cfea414140de5dae2223b00361a396177a9cb410ff61f20015ad";
    let d = source_document("Wiki/r.md", ".objects/o", "https://e.test/a", "T", MediaType::PlainText, sha, b"abc".to_vec(), "# n")
        .unwrap();
    assert_eq!(d.source_uri.as_deref(), Some("https://e.test/a"));
    assert_eq!(d.annotation.as_deref(), Some("# n"));
    let err = source_document("Wiki/r.md", ".objects/o", "u", "T", MediaType::PlainText, sha, b"abd".to_vec(), "")
        .unwrap_err();
    assert_eq!(err.message, "Source object hash mismatch: .objects/o");
}

#[test]
fn all_scopes_search_the_wiki_then_the_sources() {
    assert_eq!(search_scopes(SearchScope::All), vec![SearchScope::Wiki, SearchScope::Sources]);
    assert_eq!(search_scopes(SearchScope::Sources), vec![SearchScope::Sources]);
}

#[test]
fn the_phrase_is_trimmed_and_folded_for_relevance() {
    assert_eq!(query_phrase("  Rust Verus \n", SearchMatchMode::Relevant), "rust verus");
    assert_eq!(query_phrase("  Rust Verus \n", SearchMatchMode::Exact), "Rust Verus");
    assert_eq!(query_phrase("ÄB", SearchMatchMode::Relevant), "äb");
}

#[test]
fn a_stale_index_falls_back_to_direct_search() {
    let stale = KbError::new(ErrorCode::IndexStale, "The BM25 index is stale.", true, "Rebuild it.");
    assert_eq!(index_fallback(stale.clone(), false).unwrap(), "The BM25 index is stale. Results use direct search.");
    assert_eq!(index_fallback(stale, true).unwrap_err().code, ErrorCode::IndexStale);
    let io = KbError::new(ErrorCode::IoFailure, "read failed", true, "Retry.");
    assert_eq!(index_fallback(io, false).unwrap_err().message, "read failed");
}

#[test]
fn search_results_come_in_match_order_up_to_the_limit() {
    let docs = vec![
        markdown("a.md", "A", "rust once"),
        markdown("b.md", "B", "rust rust rust"),
        markdown("c.md", "C", "rust rust"),
    ];
    let hits = search_scope(docs, "rust", 2, SearchMatchMode::Exact);
    assert_eq!(hits.len(), 2);
    assert_eq!(hits[0].path, "b.md");
    assert_eq!(hits[0].match_count, 3);
    assert_eq!(hits[1].path, "c.md");
    assert!(hits[0].match_count >= hits[1].match_count);
    assert_eq!(hits[0].backend, Some(SearchBackend::Direct));
    assert_eq!(hits[0].score_micros, None);
}
