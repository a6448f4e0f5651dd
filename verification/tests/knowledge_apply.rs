use kb_app::error::ErrorCode;
use kb_app::knowledge_apply::{apply_step, ApplyAction, ApplyEvent, ApplyKind, ApplyStage};
use kb_app::knowledge_apply::{record_effect, restore_steps, validate_progress, validate_write_set, KnowledgeWrite, RestoreStep, WriteEffect};
use kb_app::source_io::hash;

fn write(path: &str, before: Option<&str>, content: &str) -> KnowledgeWrite {
    KnowledgeWrite {
        path: path.to_owned(),
        before_sha256: before.map(str::to_owned),
        delete: false,
        content: content.to_owned(),
    }
}

fn plan_writes() -> Vec<KnowledgeWrite> {
    vec![
        write("Wiki/articles/recovery.md", None, "new page"),
        write("Wiki/index.md", Some(&hash(b"old index")), "index"),
        write("Wiki/log.md", Some(&hash(b"old log")), "log"),
    ]
}

#[test]
fn the_write_set_is_the_requested_and_derived_files() {
    let changes = vec!["articles/recovery.md".to_owned()];
    assert!(validate_write_set(&changes, &plan_writes()).is_ok());
}

#[test]
fn write_set_problems_are_invalid_plans() {
    let changes = vec!["articles/recovery.md".to_owned()];
    let mut dup = plan_writes();
    dup.push(write("Wiki/log.md", None, "again"));
    let err = validate_write_set(&changes, &dup).unwrap_err();
    assert_eq!(err.code, ErrorCode::InvalidConfig);
    assert_eq!(err.message, "knowledge plan: duplicate write target");
    let mut extra = plan_writes();
    extra.push(write("Wiki/articles/other.md", None, "x"));
    assert_eq!(
        validate_write_set(&changes, &extra).unwrap_err().message,
        "knowledge plan: unexpected write target Wiki/articles/other.md"
    );
    let missing = vec![write("Wiki/articles/recovery.md", None, "p"), write("Wiki/index.md", None, "i")];
    assert_eq!(
        validate_write_set(&changes, &missing).unwrap_err().message,
        "knowledge plan: write set does not match requested and derived files"
    );
    let more = vec!["articles/recovery.md".to_owned(), "articles/second.md".to_owned()];
    assert!(validate_write_set(&more, &plan_writes()).is_err());
}

#[test]
fn progress_must_belong_to_the_plan() {
    let writes = plan_writes();
    let good = vec![
        WriteEffect { path: "Wiki/articles/recovery.md".to_owned(), before: None, after_sha256: hash(b"new page") },
        WriteEffect {
            path: "Wiki/index.md".to_owned(),
            before: Some(b"old index".to_vec()),
            after_sha256: hash(b"index"),
        },
    ];
    assert!(validate_progress("op-1", &writes, "op-1", &good).is_ok());
    let err = validate_progress("op-1", &writes, "op-2", &good).unwrap_err();
    assert_eq!(err.code, ErrorCode::VaultNeedsRecovery);
    assert_eq!(err.message, "Knowledge progress identity mismatch.");
    let mut twice = good.clone_effects();
    twice.push(WriteEffect { path: "Wiki/index.md".to_owned(), before: None, after_sha256: hash(b"index") });
    assert_eq!(validate_progress("op-1", &writes, "op-1", &twice).unwrap_err().message, "Duplicate knowledge recovery path.");
    let stray = vec![WriteEffect { path: "Wiki/log.md".to_owned(), before: None, after_sha256: hash(b"log") }];
    assert_eq!(
        validate_progress("op-1", &writes, "op-1", &stray).unwrap_err().message,
        "Knowledge progress is outside its operation plan."
    );
}

trait CloneEffects {
    fn clone_effects(&self) -> Vec<WriteEffect>;
}

impl CloneEffects for Vec<WriteEffect> {
    fn clone_effects(&self) -> Vec<WriteEffect> {
        self.iter()
            .map(|e| WriteEffect { path: e.path.clone(), before: e.before.clone(), after_sha256: e.after_sha256.clone() })
            .collect()
    }
}

#[test]
fn undoing_writes_restores_ours_and_preserves_others() {
    let effects = vec![
        WriteEffect { path: "Wiki/a.md".to_string(), before: Some(b"old a".to_vec()), after_sha256: hash(b"new a") },
        WriteEffect { path: "Wiki/b.md".to_string(), before: None, after_sha256: hash(b"new b") },
        WriteEffect { path: "Wiki/c.md".to_string(), before: Some(b"old c".to_vec()), after_sha256: hash(b"new c") },
    ];
    let all_ours = vec![Some(hash(b"new a")), Some(hash(b"new b")), Some(hash(b"old c"))];
    let (steps, stop) = restore_steps(&effects, &all_ours, true);
    assert!(stop.is_none());
    assert_eq!(steps.len(), 2);
    assert!(matches!(&steps[0], RestoreStep::Remove { path } if path == "Wiki/b.md"));
    assert!(matches!(&steps[1], RestoreStep::Write { path, bytes } if path == "Wiki/a.md" && bytes == b"old a"));

    let edited = vec![Some(hash(b"someone else")), Some(hash(b"new b")), Some(hash(b"new c"))];
    let (steps, stop) = restore_steps(&effects, &edited, true);
    assert_eq!(steps.len(), 2);
    assert!(matches!(&steps[0], RestoreStep::Write { path, .. } if path == "Wiki/c.md"));
    let e = stop.unwrap();
    assert_eq!(e.code, ErrorCode::VaultNeedsRecovery);
    assert_eq!(e.message, "Preserved independently changed Wiki/a.md.");
    let (_, stop) = restore_steps(&effects, &edited, false);
    assert_eq!(stop.unwrap().message, "Preserved independently changed Wiki/a.md");
}

#[test]
fn a_write_records_what_it_replaces() {
    let w = write("Wiki/a.md", Some(&hash(b"old")), "new");
    let e = record_effect(&w, Some(b"old".to_vec())).unwrap();
    assert_eq!(e.path, "Wiki/a.md");
    assert_eq!(e.before.as_deref(), Some(&b"old"[..]));
    assert_eq!(e.after_sha256, hash(b"new"));
    let err = record_effect(&w, Some(b"other".to_vec())).unwrap_err();
    assert_eq!(err.code, ErrorCode::PlanStale);
    assert_eq!(err.message, "Wiki/a.md changed before saving.");
    assert!(record_effect(&w, None).is_err());
    let fresh = write("Wiki/b.md", None, "b");
    assert!(record_effect(&fresh, None).unwrap().before.is_none());
    assert!(record_effect(&fresh, Some(Vec::new())).is_err());
}

#[test]
fn knowledge_saves_step_from_the_plan_to_the_receipt() {
    let id = "op-1";
    let (stage, action) = apply_step(ApplyKind::Knowledge, id, ApplyStage::Start, ApplyEvent::PlanRead { digest_matches: true, identity_matches: true });
    assert!(matches!(action, ApplyAction::Lock));
    let (stage, action) = apply_step(ApplyKind::Knowledge, id, stage, ApplyEvent::Locked { other_pending: false, pending: Some("op-1".to_owned()), receipt: None });
    assert!(matches!(action, ApplyAction::RecordApplying));
    let (stage, action) = apply_step(ApplyKind::Knowledge, id, stage, ApplyEvent::Recorded);
    assert!(matches!(action, ApplyAction::LoadConfig));
    let (stage, action) = apply_step(
        ApplyKind::Knowledge,
        id,
        stage,
        ApplyEvent::Configured { schema_current: true, same_vault: true, write_set: Ok(()), progress_stored: true },
    );
    assert!(matches!(action, ApplyAction::Restore));
    let (stage, action) = apply_step(ApplyKind::Knowledge, id, stage, ApplyEvent::Restored);
    assert!(matches!(action, ApplyAction::CheckTargets));
    let (stage, action) = apply_step(ApplyKind::Knowledge, id, stage, ApplyEvent::Checked(Ok(())));
    assert!(matches!(action, ApplyAction::SaveWrites));
    let (stage, action) = apply_step(ApplyKind::Knowledge, id, stage, ApplyEvent::Saved);
    assert!(matches!(action, ApplyAction::WriteReceipt));
    let (stage, action) = apply_step(ApplyKind::Knowledge, id, stage, ApplyEvent::Committed);
    assert!(matches!(action, ApplyAction::RecordApplied));
    let (stage, action) = apply_step(ApplyKind::Knowledge, id, stage, ApplyEvent::Recorded);
    assert!(matches!(action, ApplyAction::Complete));
    assert_eq!(stage, ApplyStage::Done);
}

#[test]
fn knowledge_saves_stop_on_stale_plans_and_other_pending_saves() {
    let (_, action) = apply_step(ApplyKind::Knowledge, "op-1", ApplyStage::Start, ApplyEvent::PlanRead { digest_matches: false, identity_matches: true });
    match action {
        ApplyAction::Fail(e) => {
            assert_eq!(e.code, ErrorCode::PlanStale);
            assert_eq!(e.message, "Reviewed plan contents changed.");
        },
        _ => panic!("expected a failure"),
    }
    let (_, action) = apply_step(
        ApplyKind::Knowledge,
        "op-1",
        ApplyStage::Locking,
        ApplyEvent::Locked { other_pending: false, pending: Some("op-2".to_owned()), receipt: None },
    );
    match action {
        ApplyAction::Fail(e) => {
            assert_eq!(e.code, ErrorCode::VaultNeedsRecovery);
            assert_eq!(e.message, "Another knowledge operation op-2 is pending.");
        },
        _ => panic!("expected a failure"),
    }
    let (stage, action) = apply_step(ApplyKind::Knowledge, "op-1", ApplyStage::Locking, ApplyEvent::Locked { other_pending: false, pending: None, receipt: Some(true) });
    assert!(matches!(action, ApplyAction::FinishFromReceipt));
    let (_, action) = apply_step(ApplyKind::Knowledge, "op-1", stage, ApplyEvent::Recorded);
    assert!(matches!(action, ApplyAction::Complete));
}

#[test]
fn source_captures_step_with_their_own_messages() {
    let (_, action) = apply_step(
        ApplyKind::Capture,
        "op-1",
        ApplyStage::Locking,
        ApplyEvent::Locked { other_pending: true, pending: None, receipt: None },
    );
    match action {
        ApplyAction::Fail(e) => {
            assert_eq!(e.code, ErrorCode::VaultNeedsRecovery);
            assert_eq!(e.message, "An interrupted knowledge save needs recovery first.");
        },
        _ => panic!("expected a failure"),
    }
    let (_, action) = apply_step(
        ApplyKind::Capture,
        "op-1",
        ApplyStage::Configuring,
        ApplyEvent::Configured { schema_current: false, same_vault: true, write_set: Ok(()), progress_stored: false },
    );
    match action {
        ApplyAction::Fail(e) => {
            assert_eq!(e.code, ErrorCode::PlanStale);
            assert_eq!(e.remediation, "Run kb review and inspect a fresh plan.");
        },
        _ => panic!("expected a failure"),
    }
    let (_, action) = apply_step(ApplyKind::Capture, "op-1", ApplyStage::Saving, ApplyEvent::Recorded);
    assert!(matches!(action, ApplyAction::Fail(_)));
}
