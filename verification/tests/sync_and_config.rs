use kb_app::config::{
    cli_layer, environment_layer, load_effective_config, ConfigFiles, parse_positive_u64, BuiltIn, ConfigOverrides, ConfigSource,
    PartialConfig, SearchMode,
};
use kb_app::error::ErrorCode;
use kb_app::sync::{
    blocking_sync_findings, conflict_finding, conflict_findings, excluded_shared_path, nul_records, parse_u64, sort_findings, summarize,
    upstream_findings, SyncFindingLevel,
};

fn builtin() -> BuiltIn {
    BuiltIn {
        search_mode: SearchMode::Direct,
        max_file_bytes: 100,
        max_files_per_review: 10,
        max_total_read_bytes: 1000,
        include_hidden: false,
        plan_retention_hours: 24,
    }
}

fn files() -> ConfigFiles {
    ConfigFiles {
        user: "/c/config.yml".to_owned(),
        vault: "/v/.kb/config.yml".to_owned(),
        local: "/v/.kb/config.local.yml".to_owned(),
    }
}

fn current(mut p: PartialConfig) -> PartialConfig {
    p.schema_version = Some("v1.0".to_owned());
    p
}

fn empty() -> PartialConfig {
    PartialConfig {
        schema_version: Some("v1.0".to_owned()),
        vault_id: None,
        search_mode: None,
        max_file_bytes: None,
        max_files_per_review: None,
        max_total_read_bytes: None,
        include_hidden: None,
        plan_retention_hours: None,
    }
}

#[test]
fn conflict_markers_block_managed_files_only() {
    let text = "a\n<<<<<<< ours\nb\n=======\nc\n>>>>>>> theirs\n";
    let managed = conflict_finding("KB.md", text).unwrap();
    assert_eq!(managed.level, SyncFindingLevel::Error);
    assert!(managed.blocks_writes);
    let note = conflict_finding("Notes/a.md", text).unwrap();
    assert_eq!(note.level, SyncFindingLevel::Warning);
    assert!(!note.blocks_writes);
    assert!(conflict_finding("KB.md", "clean\n").is_none());
}

#[test]
fn conflict_scans_block_writes_for_managed_files() {
    let marked = "a\n<<<<<<< ours\nb\n=======\nc\n>>>>>>> theirs\n";
    let files = vec![
        ("KB.md".to_owned(), marked.to_owned()),
        ("admission.yml".to_owned(), "clean\n".to_owned()),
        ("Wiki/topic.md".to_owned(), format!("<!-- kb:managed:start -->\n{marked}")),
        ("Wiki/notes.md".to_owned(), marked.to_owned()),
    ];
    let found = conflict_findings(&files);
    assert_eq!(found.len(), 3);
    let blocking = blocking_sync_findings(found, Vec::new());
    let paths: Vec<&str> = blocking.iter().map(|f| f.path.as_deref().unwrap()).collect();
    assert_eq!(paths, vec!["KB.md", "Wiki/topic.md"]);
    assert!(blocking.iter().all(|f| f.code == "sync_conflict_marker" && f.level == SyncFindingLevel::Error));
}

#[test]
fn local_files_are_not_shared() {
    assert!(excluded_shared_path(".git/config"));
    assert!(excluded_shared_path(".kb/cache/bm25.json"));
    assert!(excluded_shared_path("Notes/.DS_Store"));
    assert!(!excluded_shared_path("Wiki/index.md"));
}

#[test]
fn nul_separated_records_skip_empty_ones() {
    let records = nul_records(b"a\0\0bc\0d");
    let texts: Vec<String> = records.iter().map(|r| r.iter().collect()).collect();
    assert_eq!(texts, vec!["a", "bc", "d"]);
}

#[test]
fn upstream_counts_decide_the_findings() {
    assert!(upstream_findings("origin/main", Some("0 0")).is_empty());
    let behind = upstream_findings("origin/main", Some("0 3"));
    assert_eq!(behind.len(), 1);
    assert_eq!(behind[0].message, "The current branch is 3 commit(s) behind origin/main.");
    let diverged = upstream_findings("origin/main", Some("2 1"));
    assert_eq!(diverged[0].code, "git_branch_diverged");
    let unknown = upstream_findings("origin/main", None);
    assert_eq!(unknown[0].code, "git_upstream_state_unavailable");
    assert_eq!(parse_u64(&"+12".chars().collect::<Vec<_>>()), Some(12));
    assert_eq!(parse_u64(&"".chars().collect::<Vec<_>>()), None);
}

#[test]
fn summaries_count_every_finding_and_sorting_keeps_them() {
    let text = "<<<<<<< a\n";
    let findings = vec![
        conflict_finding("Notes/a.md", text).unwrap(),
        conflict_finding("KB.md", text).unwrap(),
        upstream_findings("origin/main", None).remove(0),
    ];
    let s = summarize(&findings);
    assert_eq!(s.errors, 2);
    assert_eq!(s.warnings, 1);
    assert_eq!(s.information, 0);
    assert!(s.writes_blocked);
    let sorted = sort_findings(findings, true);
    assert_eq!(sorted.len(), 3);
    assert_eq!(sorted[2].level, SyncFindingLevel::Warning);
    let blocking = blocking_sync_findings(sorted, Vec::new());
    assert_eq!(blocking.len(), 2);
    assert!(blocking.iter().all(|f| f.blocks_writes));
}

#[test]
fn later_layers_take_precedence() {
    let mut user = empty();
    user.max_file_bytes = Some(50);
    let mut vault = empty();
    vault.vault_id = Some("v-1".to_owned());
    vault.max_file_bytes = Some(60);
    vault.search_mode = Some(SearchMode::Bm25);
    let local = empty();
    let overrides = ConfigOverrides {
        environment: vec![("KB_LIMITS_MAX_FILE_BYTES".to_owned(), "70".to_owned())],
        cli: Vec::new(),
    };
    let c = load_effective_config(builtin(), &files(), &Some(user.clone()), &vault, &Some(local.clone()), &overrides).unwrap();
    assert_eq!(c.search_mode, (SearchMode::Bm25, ConfigSource::Vault));
    assert_eq!(c.max_file_bytes, (70, ConfigSource::Environment));
    assert_eq!(c.max_files_per_review, (10, ConfigSource::BuiltIn));
    assert_eq!(c.vault_id, "v-1");
    let missing = load_effective_config(builtin(), &files(), &Some(user.clone()), &current(empty()), &Some(local.clone()), &overrides).unwrap_err();
    assert_eq!(missing.message, ".kb/config.yml: vault_id is required in Vault configuration");
}

#[test]
fn override_values_must_be_positive_integers() {
    assert_eq!(parse_positive_u64("limits.max_file_bytes", "5").unwrap(), 5);
    let e = parse_positive_u64("limits.max_file_bytes", "0").unwrap_err();
    assert_eq!(e.code, ErrorCode::InvalidConfig);
    assert!(parse_positive_u64("limits.max_file_bytes", "x").is_err());
    assert!(environment_layer(&Vec::new()).is_ok());
    assert!(cli_layer(&vec![("unknown.key".to_owned(), "1".to_owned())]).is_err());
}

#[test]
fn schema_migration_config_loader_rejects_unsupported_vault_schema() {
    let mut vault = empty();
    vault.vault_id = Some("v-1".to_owned());
    vault.schema_version = Some("v0.9".to_owned());
    let none = ConfigOverrides { environment: Vec::new(), cli: Vec::new() };
    let error = load_effective_config(builtin(), &files(), &None, &vault, &None, &none).unwrap_err();
    assert_eq!(error.code, ErrorCode::InvalidConfig);
    assert_eq!(error.message, "/v/.kb/config.yml: schema v0.9 requires a compatibility workflow");
}

#[test]
fn every_present_file_must_declare_the_current_schema() {
    let mut vault = empty();
    vault.vault_id = Some("v-1".to_owned());
    let none = ConfigOverrides { environment: Vec::new(), cli: Vec::new() };
    assert!(load_effective_config(builtin(), &files(), &None, &vault, &None, &none).is_ok());
    let mut undeclared = empty();
    undeclared.schema_version = None;
    let e = load_effective_config(builtin(), &files(), &Some(undeclared.clone()), &vault, &None, &none).unwrap_err();
    assert_eq!(e.message, "/c/config.yml: schema_version is required");
    let e = load_effective_config(builtin(), &files(), &None, &vault, &Some(undeclared), &none).unwrap_err();
    assert_eq!(e.message, "/v/.kb/config.local.yml: schema_version is required");
}
