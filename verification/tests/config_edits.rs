use kb_app::config::{
    check_candidate_identity, check_schema, config_change, config_validate, initial_config_text, line_diff,
    parse_override_map, reject_non_vault_identity, target_path, validate_effective, validate_supported_key, BuiltIn,
    ConfigFiles, ConfigOverrides, ConfigSource, ConfigTarget, EffectiveConfig, PartialConfig, SearchMode, ValidationReport,
};
use kb_app::error::{ErrorCode, KbError};

fn empty() -> PartialConfig {
    PartialConfig {
        schema_version: None,
        vault_id: None,
        search_mode: None,
        max_file_bytes: None,
        max_files_per_review: None,
        max_total_read_bytes: None,
        include_hidden: None,
        plan_retention_hours: None,
    }
}

fn files() -> ConfigFiles {
    ConfigFiles { user: "/c/config.yml".to_string(), vault: "/v/.kb/config.yml".to_string(), local: "/v/.kb/config.local.yml".to_string() }
}

fn builtin() -> BuiltIn {
    BuiltIn {
        search_mode: SearchMode::Direct,
        max_file_bytes: 100,
        max_files_per_review: 10,
        max_total_read_bytes: 1000,
        include_hidden: false,
        plan_retention_hours: 24,
    }
}

fn current() -> PartialConfig {
    let mut p = empty();
    p.schema_version = Some("v1.0".to_string());
    p
}

fn pairs(v: &[(&str, &str)]) -> Vec<(String, String)> {
    v.iter().map(|(k, x)| (k.to_string(), x.to_string())).collect()
}

#[test]
fn each_target_has_its_file() {
    assert_eq!(target_path("/v", "/c", ConfigTarget::Vault), "/v/.kb/config.yml");
    assert_eq!(target_path("/v/", "/c", ConfigTarget::Local), "/v/.kb/config.local.yml");
    assert_eq!(target_path("/v", "/c", ConfigTarget::User), "/c/config.yml");
}

#[test]
fn a_change_is_previewed_as_a_whole_file_diff() {
    assert_eq!(line_diff("cfg.yml", "a: 1\nb: 2\n", "a: 3\n"), "--- cfg.yml\n+++ cfg.yml\n-a: 1\n-b: 2\n+a: 3\n");
    let c = config_change("cfg.yml", "", "x: 1", false);
    assert_eq!(c.diff, "--- cfg.yml\n+++ cfg.yml\n+x: 1\n");
    assert!(!c.written);
    assert_eq!(initial_config_text(), "schema_version: \"v1.0\"\n");
}

#[test]
fn only_supported_keys_can_be_changed() {
    assert!(validate_supported_key("search.mode").is_ok());
    assert!(validate_supported_key("limits.max_file_bytes").is_ok());
    let e = validate_supported_key("vault_id").unwrap_err();
    assert_eq!(e.code, ErrorCode::InvalidConfig);
    assert_eq!(e.message, "vault_id: this identity field cannot be changed through kb config");
    assert_eq!(validate_supported_key("colour").unwrap_err().message, "colour: unknown configuration key");
}

#[test]
fn override_maps_parse_known_keys() {
    let p = parse_override_map(&pairs(&[("limits.max_file_bytes", "42"), ("search.mode", "bm25")]), false).unwrap();
    assert_eq!(p.max_file_bytes, Some(42));
    assert_eq!(p.search_mode, Some(SearchMode::Bm25));
    assert!(parse_override_map(&pairs(&[("limits.max_file_bytes", "0")]), false).is_err());
    assert!(parse_override_map(&pairs(&[("limits.max_file_bytes", "many")]), true).is_err());
}

#[test]
fn files_must_declare_the_current_schema_and_their_identity() {
    let mut p = empty();
    assert_eq!(check_schema(".kb/config.yml", &p).unwrap_err().message, ".kb/config.yml: schema_version is required");
    p.schema_version = Some("v0.9".to_string());
    assert_eq!(
        check_schema(".kb/config.yml", &p).unwrap_err().message,
        ".kb/config.yml: schema v0.9 requires a compatibility workflow"
    );
    p.schema_version = Some("v1.0".to_string());
    assert!(check_schema(".kb/config.yml", &p).is_ok());
    assert!(reject_non_vault_identity(&p, "user config").is_ok());
    p.vault_id = Some("v".to_string());
    assert_eq!(
        reject_non_vault_identity(&p, "user config").unwrap_err().message,
        "user config: vault_id is owned by .kb/config.yml and cannot be overridden"
    );
    assert!(check_candidate_identity(ConfigTarget::Vault, ".kb/config.yml", &p).is_ok());
    assert_eq!(
        check_candidate_identity(ConfigTarget::Local, ".kb/config.local.yml", &p).unwrap_err().message,
        ".kb/config.local.yml: vault_id cannot be overridden outside .kb/config.yml"
    );
    assert_eq!(
        check_candidate_identity(ConfigTarget::Vault, ".kb/config.yml", &empty()).unwrap_err().message,
        ".kb/config.yml: vault_id is required in Vault configuration"
    );
}

#[test]
fn effective_limits_must_be_positive() {
    let mut c = EffectiveConfig {
        vault_id: "v".to_string(),
        search_mode: (SearchMode::Direct, ConfigSource::BuiltIn),
        max_file_bytes: (1, ConfigSource::BuiltIn),
        max_files_per_review: (1, ConfigSource::BuiltIn),
        max_total_read_bytes: (1, ConfigSource::BuiltIn),
        include_hidden: (false, ConfigSource::BuiltIn),
        plan_retention_hours: (1, ConfigSource::BuiltIn),
    };
    assert!(validate_effective(&c).is_ok());
    c.max_total_read_bytes = (0, ConfigSource::Cli);
    assert_eq!(
        validate_effective(&c).unwrap_err().message,
        "limits.max_total_read_bytes: value must be greater than zero"
    );
}

#[test]
fn validation_reports_admission_entries() {
    let mut vault = empty();
    vault.vault_id = Some("v".to_string());
    vault.schema_version = Some("v1.0".to_string());
    let none = ConfigOverrides { environment: Vec::new(), cli: Vec::new() };
    let r = config_validate(builtin(), &files(), &None, &vault, &None, &none, Ok(3)).unwrap();
    assert_eq!(r, ValidationReport { valid: true, admission_entries: 3 });
    let admission = KbError::invalid_config("admission.yml", "bad");
    let e = config_validate(builtin(), &files(), &None, &vault, &None, &none, Err(admission)).unwrap_err();
    assert_eq!(e.message, "admission.yml: bad");
    let e = config_validate(builtin(), &files(), &None, &current(), &None, &none, Ok(3)).unwrap_err();
    assert_eq!(e.message, ".kb/config.yml: vault_id is required in Vault configuration");
}
