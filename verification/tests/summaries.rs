use kb_app::error::ErrorCode;
use kb_app::operation_events::OperationEventKind;
use kb_app::operation_summary::{
    applied_summary, knowledge_paths, planned_summary, skill_action_label, source_result_summary, summary_with_event,
};
use kb_app::skill_plan::{
    ensure_exact_file_paths, expected_links, validate_links, validate_record_links, SkillAction, SkillInstallMode,
    SkillLinkChange,
};

fn strings(v: &[&str]) -> Vec<String> {
    v.iter().map(|s| s.to_string()).collect()
}

#[test]
fn planned_and_applied_summaries_count_paths() {
    let s = planned_summary("op-1", "adopt_vault", "v1", "/root/v", strings(&["a.md", "b.md"]), "Adopt Vault");
    assert_eq!(s.operation_state, "planned");
    assert_eq!(s.change_count, 2);
    assert_eq!(s.summary, "Adopt Vault: 2 planned change(s).");
    assert!(s.requires_confirmation && s.can_apply);
    assert_eq!(s.affected_paths, strings(&["a.md", "b.md"]));

    let a = applied_summary("op-1", "adopt_vault", "v1", "/root/v", Vec::new(), "Adopt Vault");
    assert_eq!(a.operation_state, "applied");
    assert_eq!(a.change_count, 0);
    assert_eq!(a.summary, "Adopt Vault: 0 applied change(s).");
    assert!(!a.requires_confirmation && !a.can_apply);
}

#[test]
fn source_result_counts_captured_and_missing() {
    let s = source_result_summary("op-2", "v1", "/root/v", strings(&["Sources/a.md"]), 3, 2);
    assert_eq!(s.operation_kind, "capture_sources");
    assert_eq!(s.change_count, 5);
    assert_eq!(s.summary, "Capture sources: 5 applied change(s).");
    assert_eq!(s.affected_paths, strings(&["Sources/a.md"]));
}

#[test]
fn knowledge_paths_are_under_wiki() {
    assert_eq!(knowledge_paths(&strings(&["concepts/a.md", "index.md"])), strings(&["Wiki/concepts/a.md", "Wiki/index.md"]));
    assert!(knowledge_paths(&Vec::new()).is_empty());
    assert_eq!(skill_action_label(SkillAction::Install), "Install Skills");
    assert_eq!(skill_action_label(SkillAction::Uninstall), "Uninstall Skills");
}

#[test]
fn latest_event_sets_the_plan_state() {
    let s = planned_summary("op-3", "apply_knowledge", "v1", "/root/v", strings(&["Wiki/a.md"]), "Apply knowledge");
    let failed = summary_with_event(s.clone(), false, "Apply knowledge", OperationEventKind::Failed);
    assert_eq!(failed.operation_state, "failed");
    assert_eq!(failed.summary, "Apply knowledge: 1 failed change(s).");
    assert!(!failed.requires_confirmation && !failed.can_apply);
    let applying = summary_with_event(s.clone(), false, "Apply knowledge", OperationEventKind::Applying);
    assert_eq!(applying.summary, "Apply knowledge: 1 being applied change(s).");
    assert!(!applying.requires_confirmation && applying.can_apply);
    let kept = summary_with_event(s.clone(), true, "Other", OperationEventKind::Failed);
    assert_eq!(kept.summary, s.summary);
    assert_eq!(kept.operation_state, "planned");
}

#[test]
fn symlinked_installations_link_every_skill() {
    assert!(expected_links("/h/skills", "/c", SkillInstallMode::Copy, true).is_empty());
    let links = expected_links("/h/skills", "/c", SkillInstallMode::Symlink, true);
    assert_eq!(links.len(), 8);
    assert_eq!(links[0].path, "/h/skills/kb-vault");
    assert_eq!(links[0].target, "/c/skills/kb-vault");
    assert!(links[0].create);
    assert_eq!(links[7].path, "/h/skills/kb-connect");
}

#[test]
fn plan_links_must_match_their_targets() {
    assert!(validate_links(SkillInstallMode::Copy, &Vec::new(), "/h/skills", "/c").is_ok());
    let links = expected_links("/h/skills/", "/c", SkillInstallMode::Symlink, true);
    assert!(validate_links(SkillInstallMode::Symlink, &links, "/h/skills", "/c").is_ok());
    let mut wrong = links.clone();
    wrong[2].target = "/elsewhere/kb-ingest".to_string();
    let e = validate_links(SkillInstallMode::Symlink, &wrong, "/h/skills", "/c").unwrap_err();
    assert_eq!(e.code, ErrorCode::AuthDenied);
    assert_eq!(e.message, "links do not match resolved Skill targets");
    assert_eq!(e.remediation, "Create a new Skill plan.");
    assert!(validate_links(SkillInstallMode::Symlink, &Vec::new(), "/h/skills", "/c").is_err());
}

#[test]
fn uninstall_removes_the_recorded_links() {
    let recorded = vec![SkillLinkChange { path: "/h/a".to_string(), target: "/c/a".to_string(), create: true }];
    let plan = vec![SkillLinkChange { path: "/h//a".to_string(), target: "/c/a".to_string(), create: false }];
    assert!(validate_record_links(&plan, &recorded).is_ok());
    let creating = vec![SkillLinkChange { path: "/h/a".to_string(), target: "/c/a".to_string(), create: true }];
    let e = validate_record_links(&creating, &recorded).unwrap_err();
    assert_eq!(e.message, "uninstall links differ from owned installation");
    assert!(validate_record_links(&Vec::new(), &recorded).is_err());
}

#[test]
fn file_paths_must_be_exactly_the_expected_ones() {
    let expected = strings(&["/h/kb-vault/SKILL.md", "/h/kb-ops/SKILL.md"]);
    assert!(ensure_exact_file_paths(&strings(&["/h/kb-ops/SKILL.md", "/h/kb-vault/SKILL.md"]), &expected).is_ok());
    let e = ensure_exact_file_paths(&strings(&["/h/kb-vault/SKILL.md"]), &expected).unwrap_err();
    assert_eq!(e.message, "contains a path outside its resolved target");
    assert!(ensure_exact_file_paths(&strings(&["/h/kb-vault/SKILL.md", "/h/kb-vault/SKILL.md", "/h/kb-ops/SKILL.md"]), &expected).is_err());
    assert!(ensure_exact_file_paths(&strings(&["/h/x/SKILL.md", "/h/kb-ops/SKILL.md"]), &expected).is_err());
}
