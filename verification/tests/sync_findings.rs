use kb_app::error::ErrorCode;
use kb_app::sync::{
    ensure_shared_write_sync_safe, git_inspection, incomplete_operation_finding, lint_finding, repository_findings,
    rule_findings, stale_index_finding, tracked_local_findings, unmerged_findings, upstream_findings, GitInspectionState,
    GitProbe, SyncFindingLevel,
};

const IGNORE: &str = "/.kb/config.local.yml\n/.kb/cache/\n/.kb/runtime/\n/.obsidian/workspace.json\n/.obsidian/workspace-mobile.json\n/.obsidian/workspaces.json\n/.trash/\n.DS_Store\nThumbs.db\nDesktop.ini\n";
const ATTRIBUTES: &str = "*.md text eol=lf\n*.yml text eol=lf\n*.yaml text eol=lf\n*.json text eol=lf\n/Wiki/external-sources/.objects/** -text\n";

#[test]
fn unmerged_entries_block_writes() {
    let out = unmerged_findings(b"100644 abc 1\tWiki/index.md\0100644 def 2\tNotes/a.md\0");
    assert_eq!(out.len(), 2);
    assert_eq!(out[0].code, "git_unmerged");
    assert_eq!(out[0].path.as_deref(), Some("Wiki/index.md"));
    assert_eq!(out[1].path.as_deref(), Some("Notes/a.md"));
    assert!(out.iter().all(|f| f.blocks_writes && f.level == SyncFindingLevel::Error));
}

#[test]
fn tracked_runtime_files_block_writes() {
    let out = tracked_local_findings(b".kb/runtime/lock\0.kb/cache/bm25.json\0");
    assert_eq!(out.len(), 2);
    assert!(out[0].blocks_writes);
    assert!(!out[1].blocks_writes);
    assert_eq!(out[1].code, "local_state_tracked");
    assert_eq!(out[1].level, SyncFindingLevel::Warning);
}

#[test]
fn portable_rules_are_checked() {
    assert!(rule_findings(IGNORE, ATTRIBUTES).is_empty());
    let out = rule_findings("# nothing\n", "");
    assert_eq!(out.len(), 3);
    assert_eq!(out[0].code, "gitignore_missing_portable_rule");
    assert!(out[0].next_action.starts_with("Review and add these lines:\n/.kb/config.local.yml\n/.kb/cache/"));
    assert_eq!(out[1].code, "gitattributes_text_unstable");
    assert_eq!(out[2].code, "gitattributes_source_object_rewrite");
    assert_eq!(out[2].next_action, "Review and add this line:\n/Wiki/external-sources/.objects/** -text");
    let partial = rule_findings(IGNORE, "  *.md text eol=lf  \n*.yml text eol=lf\n*.yaml text eol=lf\n*.json text eol=lf\n");
    assert_eq!(partial.len(), 1);
}

#[test]
fn git_probes_become_inspections() {
    let missing = git_inspection(&GitProbe::Missing);
    assert_eq!(missing.state, GitInspectionState::Unavailable);
    assert_eq!(missing.message.as_deref(), Some("Git is unavailable; filesystem checks still ran."));
    let failed = git_inspection(&GitProbe::Failed("denied".to_string()));
    assert_eq!(failed.message.as_deref(), Some("Git inspection failed: denied"));
    let ok = git_inspection(&GitProbe::Finished { success: true, stdout: "/repo\n".to_string(), stderr: String::new() });
    assert_eq!(ok.state, GitInspectionState::Checked);
    assert_eq!(ok.repository_root.as_deref(), Some("/repo"));
    let none = git_inspection(&GitProbe::Finished { success: false, stdout: String::new(), stderr: " not a repo \n".to_string() });
    assert_eq!(none.state, GitInspectionState::NotRepository);
    assert_eq!(none.message.as_deref(), Some("not a repo"));
}

#[test]
fn vault_findings_have_their_levels() {
    let dup = lint_finding("duplicate_title", "Wiki/a.md", "dup", "rename");
    assert!(dup.blocks_writes);
    assert_eq!(dup.level, SyncFindingLevel::Error);
    assert!(lint_finding("broken_link", "Wiki/index.md", "m", "r").blocks_writes);
    assert!(!lint_finding("broken_link", "Wiki/a.md", "m", "r").blocks_writes);
    assert!(incomplete_operation_finding(0).is_none());
    let pending = incomplete_operation_finding(1).unwrap();
    assert_eq!(pending.path.as_deref(), Some(".kb/runtime"));
    assert!(pending.blocks_writes);
    let stale = stale_index_finding("index is old");
    assert_eq!(stale.code, "local_search_index_stale");
    assert_eq!(stale.message, "index is old");
    assert!(!stale.blocks_writes);
}

#[test]
fn repository_findings_are_sorted_by_code_then_path() {
    let out = repository_findings(Some(b"1 a 1\tZ.md\0"), upstream_findings("origin/main", Some("0 0")), Some(b"b.local\0a.local\0"), IGNORE, ATTRIBUTES);
    assert_eq!(out.len(), 3);
    assert_eq!(out[0].code, "git_unmerged");
    assert_eq!(out[0].path.as_deref(), Some("Z.md"));
    assert_eq!(out[1].path.as_deref(), Some("a.local"));
    assert_eq!(out[2].path.as_deref(), Some("b.local"));
}

#[test]
fn shared_writes_wait_for_conflicts() {
    assert!(ensure_shared_write_sync_safe(&Vec::new()).is_ok());
    let blocking = vec![lint_finding("duplicate_title", "Wiki/a.md", "dup", "rename")];
    let e = ensure_shared_write_sync_safe(&blocking).unwrap_err();
    assert_eq!(e.code, ErrorCode::SyncConflict);
    assert_eq!(e.message, "Knowledge-Brain cannot write shared Vault files while synchronization conflicts are unresolved.");
    assert_eq!(e.findings.len(), 1);
    assert_eq!(e.findings[0].code, "duplicate_title");
    assert_eq!(e.findings[0].path.as_deref(), Some("Wiki/a.md"));
}
