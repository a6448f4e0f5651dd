use kb_app::error::ErrorCode;
use kb_app::knowledge_apply::KnowledgeWrite;
use kb_app::knowledge_plan::{
    change_writes, ensure_observed, partition_index, render_diff, required, validate_candidate, KnowledgeChangeKind,
};
use kb_app::lint::{OkfFinding, OkfSeverity};
use kb_app::managed_markdown::IndexEntry;
use kb_app::source_io::hash;

fn strings(v: &[&str]) -> Vec<String> {
    v.iter().map(|s| s.to_string()).collect()
}

fn finding(severity: OkfSeverity, code: &str) -> OkfFinding {
    OkfFinding {
        severity,
        code: code.to_string(),
        path: "Wiki/a.md".to_string(),
        line: None,
        message: String::new(),
        remediation: String::new(),
    }
}

#[test]
fn pages_must_be_as_observed() {
    let bytes = b"# Page\n".to_vec();
    let digest = hash(&bytes);
    assert!(ensure_observed("Wiki/a.md", &Some(bytes.clone()), &Some(digest.clone())).is_ok());
    assert!(ensure_observed("Wiki/a.md", &None, &None).is_ok());
    let e = ensure_observed("Wiki/a.md", &None, &Some(digest.clone())).unwrap_err();
    assert_eq!(e.code, ErrorCode::PlanStale);
    assert_eq!(e.message, "Wiki/a.md changed before the plan was created.");
    assert_eq!(e.remediation, "Read the current target and create a new knowledge request.");
    assert!(ensure_observed("Wiki/a.md", &Some(bytes.clone()), &None).is_err());
    assert!(ensure_observed("Wiki/a.md", &Some(b"other".to_vec()), &Some(digest)).is_err());
    assert_eq!(required("Wiki/a.md", Some(bytes.clone())).unwrap(), bytes);
    let e = required("Wiki/b.md", None).unwrap_err();
    assert_eq!(e.message, "Wiki/b.md does not exist at the observed source path.");
}

#[test]
fn candidates_must_be_managed_and_current() {
    let mut exact = Vec::new();
    let e = validate_candidate("Wiki/a.md", false, &Vec::new(), false, &Vec::new(), &Vec::new(), &mut exact).unwrap_err();
    assert_eq!(e.code, ErrorCode::InvalidConfig);
    assert_eq!(
        e.message,
        "Wiki/a.md: knowledge target must satisfy the managed OKF Producer Profile and not be stale"
    );
    let stale = vec![finding(OkfSeverity::Warning, "stale_document")];
    assert!(validate_candidate("Wiki/a.md", true, &stale, false, &Vec::new(), &Vec::new(), &mut exact).is_err());
    let error = vec![finding(OkfSeverity::Error, "missing_title")];
    assert!(validate_candidate("Wiki/a.md", true, &error, false, &Vec::new(), &Vec::new(), &mut exact).is_err());
    let warning = vec![finding(OkfSeverity::Warning, "long_line")];
    assert!(validate_candidate("Wiki/a.md", true, &warning, false, &Vec::new(), &Vec::new(), &mut exact).is_ok());
    assert!(exact.is_empty());
}

#[test]
fn exact_sources_must_be_available() {
    let available = strings(&["kb-source://v1/Sources/a.md@1", "kb-source://v1/Sources/b.md@2"]);
    let mut exact = strings(&["kb-source://v1/Sources/b.md@2"]);
    let sources = strings(&["https://example.org", "kb-source://v1/Sources/a.md@1", "kb-source://v1/Sources/b.md@2"]);
    assert!(validate_candidate("Wiki/a.md", true, &Vec::new(), true, &sources, &available, &mut exact).is_ok());
    assert_eq!(exact, strings(&["kb-source://v1/Sources/b.md@2", "kb-source://v1/Sources/a.md@1"]));

    let mut exact = Vec::new();
    let missing = strings(&["kb-source://v1/Sources/a.md@1", "kb-source://v1/Sources/c.md@9", "kb-source://v1/Sources/b.md@2"]);
    let e = validate_candidate("Wiki/a.md", true, &Vec::new(), false, &missing, &available, &mut exact).unwrap_err();
    assert_eq!(e.message, "Wiki/a.md: exact source version does not exist: kb-source://v1/Sources/c.md@9");
    assert_eq!(exact, strings(&["kb-source://v1/Sources/a.md@1"]));
}

#[test]
fn external_research_needs_an_exact_source() {
    let mut exact = Vec::new();
    let e = validate_candidate("Wiki/r.md", true, &Vec::new(), true, &strings(&["https://example.org"]), &Vec::new(), &mut exact)
        .unwrap_err();
    assert_eq!(e.code, ErrorCode::InvalidConfig);
    assert_eq!(e.message, "External research Wiki/r.md has no admitted exact source version.");
    assert_eq!(
        e.remediation,
        "Save the source from an enabled admission directory, then reference its exact kb-source URI."
    );
    assert!(!e.retryable);
    assert!(validate_candidate("Wiki/r.md", true, &Vec::new(), false, &strings(&["https://example.org"]), &Vec::new(), &mut exact).is_ok());
}

#[test]
fn each_change_writes_its_pages() {
    let up = change_writes(KnowledgeChangeKind::Upsert, "concepts/a.md", &None, &Some("abc".to_string()), "body").unwrap();
    assert_eq!(up.len(), 1);
    assert_eq!(up[0].path, "Wiki/concepts/a.md");
    assert_eq!(up[0].before_sha256.as_deref(), Some("abc"));
    assert!(!up[0].delete);
    assert_eq!(up[0].content, "body");

    let del = change_writes(KnowledgeChangeKind::Delete, "concepts/a.md", &None, &Some("abc".to_string()), "ignored").unwrap();
    assert!(del[0].delete);
    assert_eq!(del[0].content, "");

    let mv = change_writes(KnowledgeChangeKind::Move, "concepts/b.md", &Some("concepts/a.md".to_string()), &Some("abc".to_string()), "new").unwrap();
    assert_eq!(mv.len(), 2);
    assert_eq!(mv[0].path, "Wiki/concepts/b.md");
    assert!(mv[0].before_sha256.is_none());
    assert_eq!(mv[1].path, "Wiki/concepts/a.md");
    assert!(mv[1].delete);
    assert_eq!(mv[1].before_sha256.as_deref(), Some("abc"));

    let e = change_writes(KnowledgeChangeKind::Move, "concepts/b.md", &None, &None, "new").unwrap_err();
    assert_eq!(e.message, "knowledge request move: from_path is required");
}

#[test]
fn the_diff_shows_whole_files() {
    let writes = vec![
        KnowledgeWrite { path: "Wiki/a.md".to_string(), before_sha256: Some("x".to_string()), delete: false, content: "new\n".to_string() },
        KnowledgeWrite { path: "Wiki/b.md".to_string(), before_sha256: None, delete: false, content: "b1\r\nb2".to_string() },
        KnowledgeWrite { path: "Wiki/c.md".to_string(), before_sha256: Some("y".to_string()), delete: true, content: String::new() },
    ];
    let d = render_diff(&writes, &strings(&["old\n", "", "gone"]));
    assert_eq!(
        d,
        "--- Wiki/a.md\n+++ Wiki/a.md\n@@ complete file @@\n-old\n+new\n\
         --- /dev/null\n+++ Wiki/b.md\n@@ complete file @@\n+b1\n+b2\n\
         --- Wiki/c.md\n+++ /dev/null\n@@ complete file @@\n-gone\n"
    );
}

#[test]
fn index_entries_split_into_research_and_articles() {
    let entry = |p: &str| IndexEntry { path: p.to_string(), title: p.to_uppercase(), description: None };
    let (research, articles) = partition_index(&vec![entry("research/a.md"), entry("concepts/b.md"), entry("research/c.md"), entry("researcher.md")]);
    assert_eq!(research.iter().map(|e| e.path.as_str()).collect::<Vec<_>>(), vec!["research/a.md", "research/c.md"]);
    assert_eq!(articles.iter().map(|e| e.path.as_str()).collect::<Vec<_>>(), vec!["concepts/b.md", "researcher.md"]);
}
