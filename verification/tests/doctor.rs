use kb_app::doctor::{
    check_result, configuration_check, lock_acquisition, machine_runtime_directories, optional_integrations,
    recovery_records, required_vault_paths, vault_structure, vault_writability, CheckStatus, DirectoryProbe, PathState,
    RequiredPathKind, RuntimeProbe, SchemaCompatibility,
};
use kb_app::error::{ErrorCode, KbError};

#[test]
fn schema_migration_doctor_warns_when_no_migration_path_exists() {
    let check = configuration_check(Ok(("v0.9".to_string(), SchemaCompatibility::OlderUnsupported)), "v1.0", Ok(()));
    assert!(check.id == "configuration" && check.message.contains("no migration path"));
    assert_eq!(check.status, CheckStatus::Warn);
    assert_eq!(check.message, "Schema v0.9 has no migration path to v1.0; current fields were not interpreted.");
}

#[test]
fn the_configuration_check_follows_the_schema() {
    let ok = configuration_check(Ok(("v1.0".to_string(), SchemaCompatibility::Current)), "v1.0", Ok(()));
    assert_eq!(ok.status, CheckStatus::Pass);
    assert_eq!(ok.message, "Check passed.");
    let bad = KbError::invalid_config("search.mode", "unknown");
    let failed = configuration_check(Ok(("v1.0".to_string(), SchemaCompatibility::Current)), "v1.0", Err(bad));
    assert_eq!(failed.status, CheckStatus::Fail);
    assert_eq!(failed.message, "search.mode: unknown");
    let newer = configuration_check(Ok(("v1.3".to_string(), SchemaCompatibility::NewerMinorReadOnly)), "v1.0", Ok(()));
    assert_eq!(newer.message, "Schema v1.3 is NewerMinorReadOnly; current fields were not interpreted.");
    let migratable = configuration_check(Ok(("v0.8".to_string(), SchemaCompatibility::OlderMigratable)), "v1.0", Ok(()));
    assert_eq!(migratable.message, "Schema v0.8 has a migration path to v1.0; current fields were not interpreted.");
    let unreadable = configuration_check(Err("cannot read .kb/config.yml".to_string()), "v1.0", Ok(()));
    assert_eq!(unreadable.status, CheckStatus::Fail);
    assert_eq!(unreadable.message, "cannot read .kb/config.yml");
}

#[test]
fn the_structure_check_lists_every_problem() {
    let required = required_vault_paths();
    assert_eq!(required.len(), 14);
    assert_eq!(required[0].0, "admission.yml");
    let all_there: Vec<(String, RequiredPathKind, PathState)> = required
        .iter()
        .map(|(p, k)| {
            let state = PathState::Present {
                is_symlink: false,
                is_file: *k == RequiredPathKind::File,
                is_dir: *k == RequiredPathKind::Directory,
            };
            (p.clone(), *k, state)
        })
        .collect();
    let c = vault_structure(&all_there);
    assert_eq!(c.status, CheckStatus::Pass);
    assert_eq!(c.message, "All required Vault paths are present with the expected types.");
    let entries = vec![
        ("KB.md".to_string(), RequiredPathKind::File, PathState::Missing),
        ("Wiki".to_string(), RequiredPathKind::Directory, PathState::Present { is_symlink: false, is_file: true, is_dir: false }),
        (".kb".to_string(), RequiredPathKind::Directory, PathState::Present { is_symlink: true, is_file: false, is_dir: true }),
        ("Wiki/log.md".to_string(), RequiredPathKind::File, PathState::Unreadable("denied".to_string())),
    ];
    let c = vault_structure(&entries);
    assert_eq!(c.status, CheckStatus::Fail);
    assert_eq!(
        c.message,
        "Vault structure findings: KB.md is missing; Wiki is not a directory; .kb is a symbolic link; cannot inspect Wiki/log.md: denied."
    );
}

#[test]
fn runtime_directories_are_created_on_demand() {
    let entries = vec![
        ("configuration".to_string(), "/c".to_string(), DirectoryProbe::Ready),
        ("state".to_string(), "/s".to_string(), DirectoryProbe::Absent),
        ("cache".to_string(), "/k".to_string(), DirectoryProbe::Unwritable("read-only".to_string())),
    ];
    let c = machine_runtime_directories(&entries);
    assert_eq!(c.status, CheckStatus::Warn);
    assert_eq!(
        c.message,
        "Machine runtime directories (configuration: /c; state: /s; cache: /k) are created on demand; 1 path(s) are currently absent. cannot write to cache directory /k: read-only"
    );
    let failing = vec![("state".to_string(), "/s".to_string(), DirectoryProbe::NotDirectory)];
    let c = machine_runtime_directories(&failing);
    assert_eq!(c.status, CheckStatus::Fail);
    assert!(c.message.ends_with("state path is not a directory: /s"));
}

#[test]
fn single_checks_report_their_outcome() {
    assert_eq!(vault_writability(Ok(true)).status, CheckStatus::Warn);
    assert_eq!(vault_writability(Ok(false)).message, "Vault root is not marked read-only.");
    assert_eq!(vault_writability(Err("gone".to_string())).status, CheckStatus::Fail);
    let missing = lock_acquisition("/v/.kb/runtime", RuntimeProbe::Missing);
    assert_eq!(missing.status, CheckStatus::NotChecked);
    assert_eq!(missing.message, "Lock probe skipped because Vault runtime directory is missing: /v/.kb/runtime.");
    let busy = KbError::new(ErrorCode::WriteBusy, "busy", true, "wait");
    assert_eq!(lock_acquisition("/r", RuntimeProbe::Directory(Err(busy))).message, "busy");
    assert_eq!(
        lock_acquisition("/r", RuntimeProbe::Uninspectable("denied".to_string())).message,
        "Cannot inspect Vault runtime directory /r: denied"
    );
    assert_eq!(recovery_records(0).status, CheckStatus::Pass);
    let pending = recovery_records(2);
    assert_eq!(pending.status, CheckStatus::Warn);
    assert_eq!(pending.message, "2 operation recovery record(s) are pending.");
    assert_eq!(optional_integrations().status, CheckStatus::NotChecked);
    assert_eq!(check_result("path_portability", Ok(())).status, CheckStatus::Pass);
}
