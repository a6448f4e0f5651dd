use kb_app::backup::{
    match_manifest, parse_archive_name, scan_entries, validate_backup_scope, validate_vault_contract, EntryFacts, ManifestFile,
};
use kb_app::error::ErrorCode;
use kb_app::source_io::hash;

fn manifest_entry() -> String {
    ["manifest", "json"].join(".")
}

fn file(name: &str, bytes: &[u8]) -> EntryFacts {
    EntryFacts {
        name: name.to_owned(),
        is_file: true,
        is_dir: false,
        is_symlink: false,
        size: bytes.len() as u64,
        content_size: bytes.len() as u64,
        content_sha256: hash(bytes),
    }
}

fn dir(name: &str) -> EntryFacts {
    EntryFacts {
        name: name.to_owned(),
        is_file: false,
        is_dir: true,
        is_symlink: false,
        size: 0,
        content_size: 0,
        content_sha256: String::new(),
    }
}

fn listed(path: &str, bytes: &[u8]) -> ManifestFile {
    ManifestFile { path: path.to_owned(), size: bytes.len() as u64, sha256: hash(bytes) }
}

#[test]
fn entries_are_scanned_for_the_manifest() {
    let entries = vec![dir("Wiki/"), file("Wiki/a.md", b"a"), file(&manifest_entry(), b"{}")];
    assert_eq!(scan_entries(&entries, &manifest_entry()).unwrap(), 2);
    let missing = vec![file("KB.md", b"x")];
    assert_eq!(scan_entries(&missing, &manifest_entry()).unwrap_err().message, format!("Backup verification failed: {} is missing", manifest_entry()));
}

#[test]
fn bad_entries_fail_the_scan() {
    let dup = vec![file("KB.md", b"x"), file("KB.md", b"y"), file(&manifest_entry(), b"{}")];
    let e = scan_entries(&dup, &manifest_entry()).unwrap_err();
    assert_eq!(e.code, ErrorCode::BackupVerificationFailed);
    assert_eq!(e.message, "Backup verification failed: duplicate ZIP entry: KB.md");
    let mut link = file("Wiki/l", b"");
    link.is_symlink = true;
    assert_eq!(
        scan_entries(&vec![link], &manifest_entry()).unwrap_err().message,
        "Backup verification failed: special ZIP entry is forbidden: Wiki/l"
    );
    let mut huge = file(&manifest_entry(), b"{}");
    huge.size = 16 * 1024 * 1024 + 1;
    assert_eq!(
        scan_entries(&vec![huge], &manifest_entry()).unwrap_err().message,
        format!("Backup verification failed: {} is not a bounded regular file", manifest_entry())
    );
    assert_eq!(
        scan_entries(&vec![file("Wiki/", b"")], &manifest_entry()).unwrap_err().message,
        "Backup verification failed: file entry has a trailing slash"
    );
}

#[test]
fn archive_names_fit_their_kind() {
    assert_eq!(parse_archive_name("Wiki/", true).unwrap(), "Wiki");
    assert!(parse_archive_name("Wiki", true).is_err());
    assert_eq!(parse_archive_name("KB.md", false).unwrap(), "KB.md");
}

#[test]
fn entries_must_match_the_manifest_exactly() {
    let entries = vec![dir("Wiki/"), file("Wiki/a.md", b"a"), file(&manifest_entry(), b"{}")];
    let dirs = vec!["Wiki".to_owned()];
    let files = vec![listed("Wiki/a.md", b"a")];
    assert!(match_manifest(&entries, &manifest_entry(), &dirs, &files).is_ok());
    let extra = vec![listed("Wiki/a.md", b"a"), listed("Wiki/b.md", b"b")];
    assert_eq!(
        match_manifest(&entries, &manifest_entry(), &dirs, &extra).unwrap_err().message,
        format!("Backup verification failed: ZIP entries do not exactly match {}", manifest_entry())
    );
    let wrong = vec![listed("Wiki/a.md", b"b")];
    assert_eq!(
        match_manifest(&entries, &manifest_entry(), &dirs, &wrong).unwrap_err().message,
        "Backup verification failed: hash mismatch for Wiki/a.md"
    );
    let bigger = vec![ManifestFile { path: "Wiki/a.md".to_owned(), size: 2, sha256: hash(b"a") }];
    assert_eq!(
        match_manifest(&entries, &manifest_entry(), &dirs, &bigger).unwrap_err().message,
        "Backup verification failed: size mismatch for Wiki/a.md"
    );
}

#[test]
fn backups_hold_only_the_standard_scope() {
    let roots = vec!["Notes".to_owned()];
    assert!(validate_backup_scope("KB.md", false, &roots, true).is_ok());
    assert!(validate_backup_scope("Notes/a.md", false, &roots, true).is_ok());
    assert!(validate_backup_scope("Notes", true, &roots, true).is_ok());
    assert!(validate_backup_scope(".kb", true, &roots, true).is_ok());
    assert_eq!(
        validate_backup_scope("Notes/.git/config", false, &roots, true).unwrap_err().message,
        "Backup verification failed: Git internals are forbidden in backups"
    );
    assert_eq!(
        validate_backup_scope("Wiki/external-sources/.objects/x", false, &roots, false).unwrap_err().message,
        "Backup verification failed: compact backup contains excluded source objects"
    );
    assert!(validate_backup_scope("Wiki/external-sources/.objects/x", false, &roots, true).is_ok());
    assert_eq!(
        validate_backup_scope("Other/a.md", false, &roots, true).unwrap_err().message,
        "Backup verification failed: entry is outside the standard backup scope: Other/a.md"
    );
}

#[test]
fn the_vault_contract_holds_identity_admission_and_scope() {
    let roots = vec!["Notes".to_string()];
    let dirs = vec![".kb".to_string(), "Wiki".to_string(), "Notes".to_string(), "Notes/sub".to_string()];
    let files = vec![listed("KB.md", b"x"), listed("Notes/sub/a.md", b"y")];
    assert!(validate_vault_contract("v1", "v1.0", "v1", "v1.0", &roots, &dirs, &files, true).is_ok());
    let e = validate_vault_contract("v1", "v1.0", "v2", "v1.0", &roots, &dirs, &files, true).unwrap_err();
    assert_eq!(e.code, ErrorCode::BackupVerificationFailed);
    assert_eq!(e.message, "Backup verification failed: manifest Vault identity does not match .kb/config.yml");
    let missing = vec!["Notes".to_string(), "Papers".to_string()];
    let e = validate_vault_contract("v1", "v1.0", "v1", "v1.0", &missing, &dirs, &files, true).unwrap_err();
    assert_eq!(e.message, "Backup verification failed: admission directory is missing: Papers");
    let stray_dir = vec![".kb".to_string(), "Notes".to_string(), "Other".to_string()];
    let e = validate_vault_contract("v1", "v1.0", "v1", "v1.0", &roots, &stray_dir, &files, true).unwrap_err();
    assert_eq!(e.message, "Backup verification failed: entry is outside the standard backup scope: Other");
    let stray_file = vec![listed("Other/a.md", b"z")];
    let e = validate_vault_contract("v1", "v1.0", "v1", "v1.0", &roots, &dirs, &stray_file, true).unwrap_err();
    assert_eq!(e.message, "Backup verification failed: entry is outside the standard backup scope: Other/a.md");
}
