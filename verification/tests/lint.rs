use kb_app::lint::{
    has_scheme, hex_value, lint_findings, percent_decode, resolve_wiki_target, LinkTarget, LintDocument, OkfDocumentKind,
    OkfSeverity, SourceCitation, WikiLink,
};

fn chars(s: &str) -> Vec<char> {
    s.chars().collect()
}

fn doc(path: &str, kind: OkfDocumentKind) -> LintDocument {
    LintDocument { path: path.to_owned(), kind, links: Vec::new(), supersedes: Vec::new(), sources: Vec::new() }
}

#[test]
fn hex_digits_in_either_case() {
    assert_eq!(hex_value(b'7'), Some(7));
    assert_eq!(hex_value(b'c'), Some(12));
    assert_eq!(hex_value(b'F'), Some(15));
    assert_eq!(hex_value(b'g'), None);
}

#[test]
fn percent_decoding_needs_digits_and_utf8() {
    assert_eq!(percent_decode("a%20b").as_deref(), Some("a b"));
    assert_eq!(percent_decode("%E2%82%AC").as_deref(), Some("€"));
    assert_eq!(percent_decode("%zz"), None);
    assert_eq!(percent_decode("%4"), None);
    assert_eq!(percent_decode("%FF"), None);
}

#[test]
fn schemes_come_before_any_slash() {
    assert!(has_scheme(&chars("https://example.test")));
    assert!(has_scheme(&chars("mailto:x")));
    assert!(!has_scheme(&chars("a/b:c")));
    assert!(!has_scheme(&chars("no colon")));
    assert!(!has_scheme(&chars("bad scheme:x")));
}

#[test]
fn link_targets_stay_in_the_wiki() {
    let from = "Wiki/articles/a.md";
    assert_eq!(resolve_wiki_target(from, "#x"), LinkTarget::ExternalOrFragment);
    assert_eq!(resolve_wiki_target(from, "   "), LinkTarget::ExternalOrFragment);
    assert_eq!(resolve_wiki_target(from, "https://e.test/x"), LinkTarget::ExternalOrFragment);
    assert_eq!(resolve_wiki_target(from, "?q"), LinkTarget::ExternalOrFragment);
    assert_eq!(resolve_wiki_target(from, "b%20c.md#s"), LinkTarget::Wiki("Wiki/articles/b c.md".to_owned()));
    assert_eq!(resolve_wiki_target(from, "/research/r.md"), LinkTarget::Wiki("Wiki/research/r.md".to_owned()));
    assert_eq!(resolve_wiki_target(from, "../../KB.md"), LinkTarget::OutsideWiki);
    assert_eq!(resolve_wiki_target(from, "../.objects/x"), LinkTarget::OutsideWiki);
    assert_eq!(resolve_wiki_target(from, "%zz"), LinkTarget::Invalid);
    assert_eq!(resolve_wiki_target(from, "a\\b.md"), LinkTarget::Invalid);
}

#[test]
fn lint_reports_links_supersession_sources_and_orphans() {
    let mut a = doc("Wiki/articles/a.md", OkfDocumentKind::Concept);
    a.links.push(WikiLink { destination: "b.md".to_owned(), line: 3 });
    a.links.push(WikiLink { destination: "missing.md".to_owned(), line: 4 });
    a.links.push(WikiLink { destination: "../../KB.md".to_owned(), line: 5 });
    a.supersedes.push("articles/a.md".to_owned());
    a.sources.push(SourceCitation { resource: "kb-source://web/x?sha256=1234".to_owned(), line: Some(7) });
    let b = doc("Wiki/articles/b.md", OkfDocumentKind::Concept);
    let orphan = doc("Wiki/research/lonely.md", OkfDocumentKind::Concept);
    let mut index = doc("Wiki/index.md", OkfDocumentKind::Index);
    index.links.push(WikiLink { destination: "gone.md".to_owned(), line: 1 });
    let findings = lint_findings(&vec![a, b, orphan, index], &Vec::new(), &Vec::new());
    let codes: Vec<&str> = findings.iter().map(|f| f.code.as_str()).collect();
    assert_eq!(
        codes,
        vec![
            "broken_link",
            "link_outside_wiki",
            "index_drift",
            "supersedes_self",
            "source_version_missing",
            "orphan_concept",
            "orphan_concept",
        ]
    );
    assert_eq!(findings[0].message, "Markdown target does not exist: Wiki/articles/missing.md");
    assert_eq!(findings[0].severity, OkfSeverity::Warning);
    assert_eq!(findings[0].line, Some(4));
    assert_eq!(findings[4].line, Some(7));
    assert_eq!(findings[5].path, "Wiki/articles/a.md");
    assert_eq!(findings[6].path, "Wiki/research/lonely.md");
}

#[test]
fn known_source_versions_may_be_outdated() {
    let digest = "a".repeat(64);
    let current = format!("kb-source://web/x?sha256={digest}");
    let mut a = doc("Wiki/index.md", OkfDocumentKind::Index);
    a.sources.push(SourceCitation { resource: current.clone(), line: None });
    let versions = vec![(current.clone(), true)];
    assert!(lint_findings(&vec![a], &Vec::new(), &versions).is_empty());
    let mut b = doc("Wiki/index.md", OkfDocumentKind::Index);
    b.sources.push(SourceCitation { resource: current.clone(), line: None });
    let older = vec![(current.clone(), true), (current, false)];
    let findings = lint_findings(&vec![b], &Vec::new(), &older);
    assert_eq!(findings.len(), 1);
    assert_eq!(findings[0].code, "source_version_outdated");
}

#[test]
fn linked_directories_lead_to_their_index_and_superseding_counts_as_a_link() {
    let mut a = doc("Wiki/index.md", OkfDocumentKind::Index);
    a.links.push(WikiLink { destination: "research".to_owned(), line: 1 });
    let r = doc("Wiki/research/index.md", OkfDocumentKind::Other);
    let mut newer = doc("Wiki/articles/new.md", OkfDocumentKind::Concept);
    newer.supersedes.push("articles/old.md".to_owned());
    let old = doc("Wiki/articles/old.md", OkfDocumentKind::Concept);
    let dirs = vec!["Wiki/research".to_owned()];
    let findings = lint_findings(&vec![a, r, newer, old], &dirs, &Vec::new());
    let codes: Vec<&str> = findings.iter().map(|f| f.code.as_str()).collect();
    assert_eq!(codes, vec!["orphan_concept"]);
    assert_eq!(findings[0].path, "Wiki/articles/new.md");
}
