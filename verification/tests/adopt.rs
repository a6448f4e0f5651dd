use kb_app::adopt::{
    adopt_step, AdoptAction, AdoptEvent, AdoptStage,
    empty_directory_list, owned_path_list, plan_stale, planned_files, recovery_error, reject_owned_collisions,
    validate_adoption_progress, verify_observed_entries, verify_planned_files, ApplyProgress, EntryNow, ObservedEntry,
    ObservedKind,
};
use kb_app::error::ErrorCode;
use kb_app::source_io::hash;

fn strings(v: &[&str]) -> Vec<String> {
    v.iter().map(|s| s.to_string()).collect()
}

#[test]
fn adoption_refuses_paths_it_would_create() {
    assert_eq!(owned_path_list(), strings(&[".kb", "admission.yml", "KB.md", "Wiki/index.md", "Wiki/log.md"]));
    assert!(reject_owned_collisions("/v", &vec![false; 5]).is_ok());
    let e = reject_owned_collisions("/v", &vec![false, false, true, true, false]).unwrap_err();
    assert_eq!(e.code, ErrorCode::UnsafePath);
    assert_eq!(e.message, "Cannot prove ownership of existing path /v/KB.md.");
    assert_eq!(e.remediation, "Move or rename the conflicting path, then review a new adoption plan.");
}

#[test]
fn the_reviewed_snapshot_must_still_hold() {
    let entries = vec![
        ObservedEntry { relative_path: "Notes".to_string(), kind: ObservedKind::Directory, size: 0, sha256: None },
        ObservedEntry { relative_path: "Notes/a.md".to_string(), kind: ObservedKind::File, size: 3, sha256: Some("abc".to_string()) },
    ];
    let dir = EntryNow { is_dir: true, is_file: false, len: 0, sha256: None };
    let file = EntryNow { is_dir: false, is_file: true, len: 3, sha256: Some("abc".to_string()) };
    assert!(verify_observed_entries("/v", &entries, &vec![dir.clone(), file.clone()]).is_ok());
    let grown = EntryNow { len: 4, ..file.clone() };
    let e = verify_observed_entries("/v", &entries, &vec![dir.clone(), grown]).unwrap_err();
    assert_eq!(e.code, ErrorCode::PlanStale);
    assert_eq!(e.message, "Reviewed path changed: /v/Notes/a.md");
    assert_eq!(e.remediation, "Create and review a new adoption plan.");
    let e = verify_observed_entries("/v", &entries, &vec![file.clone(), file]).unwrap_err();
    assert_eq!(e.message, "Reviewed path changed: /v/Notes");
    assert_eq!(plan_stale("/x").message, "Reviewed path changed: /x");
    let r = recovery_error("/v/KB.md", "generated file bytes changed");
    assert_eq!(r.code, ErrorCode::VaultNeedsRecovery);
    assert_eq!(r.message, "Cannot safely restore /v/KB.md: generated file bytes changed");
    assert_eq!(r.remediation, "Inspect the exact path /v/KB.md before retrying.");
}

#[test]
fn planned_files_match_generated_bytes() {
    let generated = vec![("KB.md".to_string(), b"# KB\n".to_vec()), ("Wiki/log.md".to_string(), Vec::new())];
    let planned = planned_files(&generated);
    assert_eq!(planned[0].relative_path, "KB.md");
    assert_eq!(planned[0].size, 5);
    assert_eq!(planned[0].sha256, hash(b"# KB\n"));
    assert!(verify_planned_files(&planned, &generated).is_ok());
    let mut other = planned.clone();
    other[1].size = 1;
    let e = verify_planned_files(&other, &generated).unwrap_err();
    assert_eq!(e.message, "operation plan: planned generated bytes do not match this application version");
    assert!(verify_planned_files(&planned[..1].to_vec(), &generated).is_err());
}

#[test]
fn recorded_progress_must_belong_to_the_plan() {
    assert_eq!(empty_directory_list().len(), 5);
    let generated = strings(&["KB.md", "Wiki/index.md", ".kb/schemas/config.schema.json"]);
    let progress = ApplyProgress {
        operation_id: "op1".to_string(),
        stage: "/v/.kb-adopt-op1".to_string(),
        installed_files: strings(&["KB.md"]),
        created_directories: strings(&["Wiki", ".kb", ".kb/schemas", "Wiki/external-sources/.objects", ".kb/runtime"]),
    };
    assert!(validate_adoption_progress(&progress, "op1", "/v", &generated).is_ok());
    let e = validate_adoption_progress(&progress, "op2", "/v", &generated).unwrap_err();
    assert_eq!(e.code, ErrorCode::InvalidConfig);
    assert_eq!(e.message, "operation progress: progress does not match the adoption plan");
    let stray = ApplyProgress { created_directories: strings(&["Notes"]), ..progress.clone() };
    assert!(validate_adoption_progress(&stray, "op1", "/v", &generated).is_err());
    let unknown = ApplyProgress { installed_files: strings(&["Other.md"]), ..progress.clone() };
    assert!(validate_adoption_progress(&unknown, "op1", "/v", &generated).is_err());
    let elsewhere = ApplyProgress { stage: "/tmp/.kb-adopt-op1".to_string(), ..progress };
    assert!(validate_adoption_progress(&elsewhere, "op1", "/v", &generated).is_err());
}

#[test]
fn adoptions_step_from_loading_to_finishing() {
    let (stage, action) = adopt_step("op-9", "/v", AdoptStage::Start, AdoptEvent::Loaded { applied: false, identity: Ok(()) });
    assert!(matches!(action, AdoptAction::RecordStart));
    let (stage, action) = adopt_step("op-9", "/v", stage, AdoptEvent::Recorded);
    assert!(matches!(action, AdoptAction::ReadReceipt));
    let (stage, action) = adopt_step("op-9", "/v", stage, AdoptEvent::ReceiptRead(None));
    assert!(matches!(action, AdoptAction::CheckFiles));
    let (stage, action) = adopt_step("op-9", "/v", stage, AdoptEvent::FilesChecked(Ok(())));
    assert!(matches!(action, AdoptAction::ReadProgress));
    let (stage, action) = adopt_step("op-9", "/v", stage, AdoptEvent::ProgressRead(None));
    assert!(matches!(action, AdoptAction::Snapshot));
    let (stage, action) = adopt_step("op-9", "/v", stage, AdoptEvent::Snapshotted { unchanged: true });
    assert!(matches!(action, AdoptAction::Install));
    let (stage, action) = adopt_step("op-9", "/v", stage, AdoptEvent::Installed(Ok(())));
    assert!(matches!(action, AdoptAction::VerifyFinal));
    let (stage, action) = adopt_step("op-9", "/v", stage, AdoptEvent::Verified { complete: true });
    assert!(matches!(action, AdoptAction::Finish));
    let (stage, action) = adopt_step("op-9", "/v", stage, AdoptEvent::Finished(Ok(())));
    assert!(matches!(action, AdoptAction::Complete));
    assert_eq!(stage, AdoptStage::Done);
}

#[test]
fn adoptions_stop_when_the_target_changed_or_the_install_fails() {
    let (_, action) = adopt_step("op-9", "/v", AdoptStage::Snapshot, AdoptEvent::Snapshotted { unchanged: false });
    match action {
        AdoptAction::Fail(e) => {
            assert_eq!(e.code, ErrorCode::PlanStale);
            assert_eq!(e.message, "Adoption target changed after operation op-9 was reviewed.");
            assert_eq!(e.remediation, "Run kb adopt /v again.");
        },
        _ => panic!("expected a failure"),
    }
    let (_, action) = adopt_step("op-9", "/v", AdoptStage::Verifying, AdoptEvent::Verified { complete: false });
    match action {
        AdoptAction::Fail(e) => {
            assert_eq!(e.code, ErrorCode::VaultNeedsRecovery);
            assert_eq!(e.message, "Cannot safely restore /v: generated files did not pass final verification");
        },
        _ => panic!("expected a failure"),
    }
    let failure = kb_app::error::KbError::new(ErrorCode::IoFailure, "disk full", true, "retry");
    let (_, action) = adopt_step("op-9", "/v", AdoptStage::Installing, AdoptEvent::Installed(Err(failure)));
    assert!(matches!(action, AdoptAction::RollBack(_)));
    let (stage, action) = adopt_step("op-9", "/v", AdoptStage::Start, AdoptEvent::Loaded { applied: true, identity: Ok(()) });
    assert!(matches!(action, AdoptAction::RecordComplete));
    let (_, action) = adopt_step("op-9", "/v", stage, AdoptEvent::Recorded);
    assert!(matches!(action, AdoptAction::Complete));
}
