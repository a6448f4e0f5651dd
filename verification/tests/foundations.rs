use kb_app::error::ErrorCode;
use kb_app::extract::{classify_media_type, extract_bytes, extract_text, markdown_blocks, ExtractionStatus, MediaType};
use kb_app::init::{init_mode, InitMode, TargetState};
use kb_app::lock::{lock_busy, records_holder, LockMode};
use kb_app::source_io::{hash, limit, Budget};
use kb_app::source_verify::{integrity, is_first_occurrence, verification_item};
use kb_app::status::{admission_state, cache_status, vault_uris, CacheStatus, ValidationState};
use kb_app::update_store::{legal_transition, transition, UpdateExecutionState, UpdatePhase};
use kb_app::user_dirs::{join, overridden_path};
use kb_app::vault::{sole_registered, vault_source, VaultSelection, VaultSource};

#[test]
fn hashes_are_lowercase_hex_sha256() {
    assert_eq!(hash(b"abc"), "ba7816bf8f01cfea414140de5dae2223b00361a396177a9cb410ff61f20015ad");
    assert_eq!(hash(b""), "e3b0c44298fc1c149afbf4c8996fb92427ae41e4649b934ca495991b7852b855");
}

#[test]
fn limits_name_the_limit_and_the_path() {
    let e = limit("max_file_bytes", 10, "Notes/a.md");
    assert_eq!(e.code, ErrorCode::LimitExceeded);
    assert_eq!(e.message, "max_file_bytes exceeds 10 at Notes/a.md");
}

#[test]
fn budgets_stop_at_their_limits() {
    let mut b = Budget::new(5, 8, 2);
    assert!(b.visit("a").is_ok());
    assert!(b.visit("b").is_ok());
    assert_eq!(b.visit("c").unwrap_err().code, ErrorCode::LimitExceeded);
    let mut r = Budget::new(5, 8, 10);
    assert!(r.record_read(5, "a").is_ok());
    assert_eq!(r.record_read(6, "b").unwrap_err().code, ErrorCode::LimitExceeded);
    assert!(r.record_read(3, "c").is_ok());
    assert_eq!(r.record_read(1, "d").unwrap_err().code, ErrorCode::LimitExceeded);
}

#[test]
fn media_types_follow_extensions_in_any_case() {
    assert_eq!(classify_media_type(Some("MD")), MediaType::Markdown);
    assert_eq!(classify_media_type(Some("yml")), MediaType::Yaml);
    assert_eq!(classify_media_type(Some("htm")), MediaType::Html);
    assert_eq!(classify_media_type(Some("tar")), MediaType::Other);
    assert_eq!(classify_media_type(None), MediaType::Other);
}

#[test]
fn markdown_splits_at_headings_outside_fences() {
    let blocks = markdown_blocks("---\ntitle: x\n---\nintro\n# One\nbody\n```\n# not a heading\n```\n## Two ##\n");
    assert_eq!(blocks.len(), 3);
    assert_eq!(blocks[0].heading, None);
    assert_eq!(blocks[0].text, "intro\n");
    assert_eq!(blocks[0].line_start, Some(4));
    assert_eq!(blocks[1].heading.as_deref(), Some("One"));
    assert_eq!(blocks[1].text, "# One\nbody\n```\n# not a heading\n```\n");
    assert_eq!(blocks[2].heading.as_deref(), Some("Two"));
    assert_eq!(blocks[2].line_start, Some(10));
}

#[test]
fn text_extraction_refuses_non_utf8_and_nul() {
    let d = extract_text(MediaType::PlainText, &[0xff]);
    assert_eq!(d.status, ExtractionStatus::MetadataOnly);
    assert_eq!(d.warnings, vec!["Expected UTF-8 text.".to_owned()]);
    let n = extract_text(MediaType::PlainText, b"a\0b");
    assert_eq!(n.warnings, vec!["Text contains NUL bytes.".to_owned()]);
    let t = extract_text(MediaType::Csv, b"a,b\n");
    assert_eq!(t.status, ExtractionStatus::TextReady);
    assert_eq!(t.blocks.len(), 1);
    assert_eq!(t.blocks[0].text, "a,b\n");
}

#[test]
fn json_and_yaml_parse_errors_become_warnings() {
    let bad = extract_text(MediaType::Json, b"{\"a\": ");
    assert_eq!(bad.status, ExtractionStatus::TextReady);
    assert_eq!(bad.warnings.len(), 1);
    assert!(extract_text(MediaType::Json, b"{\"a\": 1}").warnings.is_empty());
    assert_eq!(extract_text(MediaType::Yaml, b"a: [1, 2").warnings.len(), 1);
    assert!(extract_text(MediaType::Yaml, b"a: 1\n").warnings.is_empty());
}

#[test]
fn formats_without_extractors_are_unavailable() {
    let d = extract_bytes(MediaType::Pdf, b"%PDF-1.7".to_vec());
    assert!(d.blocks.is_empty());
    assert_ne!(d.status, ExtractionStatus::TextReady);
}

#[test]
fn html_is_rendered_with_its_title_and_links() {
    let html = b"<html><head><title>Page</title></head><body><h1>Head</h1><p>Hello <a href=\"https://e.test/\">there</a></p></body></html>";
    let d = extract_bytes(MediaType::Html, html.to_vec());
    assert_eq!(d.extractor_id, "builtin-html");
    assert_eq!(d.status, ExtractionStatus::TextReady);
    assert_eq!(d.title.as_deref(), Some("Page"));
    assert_eq!(d.links.len(), 1);
    assert_eq!(d.links[0].target, "https://e.test/");
    assert!(d.blocks.iter().any(|b| b.text.contains("Hello")));
}

#[test]
fn broken_archives_are_reported_not_read() {
    let e = extract_bytes(MediaType::Epub, b"not a zip".to_vec());
    assert_eq!(e.extractor_id, "builtin-epub");
    assert!(e.blocks.is_empty());
    assert!(!e.warnings.is_empty());
    let d = extract_bytes(MediaType::Docx, b"not a zip".to_vec());
    assert_eq!(d.extractor_id, "builtin-docx");
    assert!(d.blocks.is_empty());
}

#[test]
fn update_states_only_move_forward() {
    assert!(legal_transition(UpdateExecutionState::Confirmed, UpdateExecutionState::ReplacingCli));
    assert!(legal_transition(UpdateExecutionState::ReplacingCli, UpdateExecutionState::Failed));
    assert!(!legal_transition(UpdateExecutionState::Completed, UpdateExecutionState::Preview));
    let c = transition(UpdateExecutionState::ApplyingComponents, UpdateExecutionState::Completed, "t1").unwrap();
    assert_eq!(c.execution_state, UpdateExecutionState::Completed);
    assert_eq!(c.phase, UpdatePhase::Applied);
    assert_eq!(c.completed_at.as_deref(), Some("t1"));
    let e = transition(UpdateExecutionState::Completed, UpdateExecutionState::Preview, "t2").unwrap_err();
    assert_eq!(e.code, ErrorCode::InvalidConfig);
}

#[test]
fn integrity_and_verification_items() {
    assert_eq!(integrity(".objects/x").message, "Source object hash mismatch: .objects/x");
    let ok = verification_item(".objects/x", Ok(b"abc".to_vec()), &hash(b"abc"));
    assert_eq!(ok.path, ".objects/x");
    let bad = verification_item(".objects/x", Ok(b"abd".to_vec()), &hash(b"abc"));
    assert_ne!(format!("{:?}", ok.status), format!("{:?}", bad.status));
    let paths = vec!["a".to_owned(), "b".to_owned(), "a".to_owned()];
    assert!(is_first_occurrence(&paths, 0));
    assert!(is_first_occurrence(&paths, 1));
    assert!(!is_first_occurrence(&paths, 2));
}

#[test]
fn status_counts_and_addresses() {
    let (state, counts) = admission_state(true, &[true, false, true]);
    assert_eq!(state, ValidationState::Valid);
    assert_eq!(counts.enabled, Some(2));
    assert_eq!(counts.disabled, Some(1));
    let (state, counts) = admission_state(false, &[true]);
    assert_eq!(state, ValidationState::NotInterpreted);
    assert_eq!(counts.enabled, None);
    assert_eq!(cache_status(false, true), CacheStatus::Missing);
    assert_eq!(cache_status(true, false), CacheStatus::Empty);
    assert_eq!(cache_status(true, true), CacheStatus::Present);
    let (rules, index) = vault_uris("v1");
    assert!(rules.ends_with("KB.md"));
    assert!(index.ends_with("Wiki/index.md"));
}

#[test]
fn locks_and_initialization_targets() {
    assert!(records_holder(LockMode::Exclusive));
    assert!(!records_holder(LockMode::Shared));
    let busy = lock_busy("kb apply");
    assert_eq!(busy.code, ErrorCode::WriteBusy);
    assert!(busy.retryable);
    assert_eq!(busy.message, "Vault is busy: kb apply");
    assert_eq!(init_mode("/v", TargetState::Missing).unwrap(), InitMode::New);
    assert_eq!(init_mode("/v", TargetState::EmptyDirectory).unwrap(), InitMode::IntoEmpty);
    assert_eq!(init_mode("/v", TargetState::NonEmptyDirectory).unwrap_err().message, "Initialization target is not empty: /v");
    assert_eq!(init_mode("/v", TargetState::NotDirectory).unwrap_err().message, "Initialization target is not a directory: /v");
}

#[test]
fn paths_and_overrides() {
    assert_eq!(join("/a", "b"), "/a/b");
    assert_eq!(join("/a/", "b"), "/a/b");
    assert_eq!(join("", "b"), "b");
    let env = vec![("KB_CONFIG_DIR".to_owned(), "  ".to_owned()), ("KB_STATE_DIR".to_owned(), "/s".to_owned())];
    assert_eq!(
        overridden_path(&env, "KB_CONFIG_DIR").unwrap_err().message,
        "KB_CONFIG_DIR: path override cannot be empty"
    );
    assert_eq!(overridden_path(&env, "KB_STATE_DIR").unwrap().as_deref(), Some("/s"));
    assert_eq!(overridden_path(&env, "KB_CACHE_DIR").unwrap(), None);
}

#[test]
fn vault_selection_prefers_explicit_then_environment() {
    let explicit = VaultSelection { explicit: Some("/v".to_owned()), environment: Vec::new(), current_dir: "/w".to_owned() };
    assert!(matches!(vault_source(&explicit).unwrap(), VaultSource::Selector(s) if s == "/v"));
    let from_env = VaultSelection {
        explicit: None,
        environment: vec![("KB_VAULT".to_owned(), "/e".to_owned())],
        current_dir: "/w".to_owned(),
    };
    assert!(matches!(vault_source(&from_env).unwrap(), VaultSource::Selector(s) if s == "/e"));
    let blank = VaultSelection {
        explicit: None,
        environment: vec![("KB_VAULT".to_owned(), " ".to_owned())],
        current_dir: "/w".to_owned(),
    };
    assert_eq!(vault_source(&blank).unwrap_err().message, "KB_VAULT: value cannot be empty");
    let none = VaultSelection { explicit: None, environment: Vec::new(), current_dir: "/w".to_owned() };
    assert!(matches!(vault_source(&none).unwrap(), VaultSource::Search));
    assert_eq!(sole_registered(1).unwrap(), 0);
    assert_eq!(sole_registered(0).unwrap_err().code, ErrorCode::VaultNotFound);
    assert_eq!(
        sole_registered(2).unwrap_err().message,
        "More than one Vault is registered, so none can be selected implicitly."
    );
}
