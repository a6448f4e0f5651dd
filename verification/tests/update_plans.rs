use sha2::Digest;

use kb_app::skill_hosts::{SkillHost, SkillScope};
use kb_app::skill_plan::{SkillFileChange, SkillInstallState, SkillLinkChange};
use kb_app::error::ErrorCode;
use kb_app::update_plan::{
    check_target_request, executable_component, plan_needs_review, skill_component, sort_components, sort_skipped, UpdateComponentKind, UpdateComponentState,
    UpdateFileAction, UpdateOwnership,
};

fn sha(text: &str) -> String {
    hex::encode(sha2::Sha256::digest(text.as_bytes()))
}

#[test]
fn current_skill_installations_are_unchanged() {
    let (c, conflict) = skill_component(
        SkillScope::User,
        SkillHost::Codex,
        "codex",
        "vault-1",
        &None,
        SkillInstallState::Current,
        false,
        "/home/u/.codex/skills",
        (Vec::new(), Vec::new()),
        "2.0.0",
    );
    assert_eq!(c.id, "skill:user:codex");
    assert_eq!(c.kind, UpdateComponentKind::ManagedSkill);
    assert_eq!(c.state, UpdateComponentState::Unchanged);
    assert_eq!(c.vault_id, None);
    assert_eq!(c.to_version.as_deref(), Some("2.0.0"));
    assert_eq!(c.message, "Managed Skill installation is Current.");
    assert!(c.changes.is_empty());
    assert!(conflict.is_none());
}

#[test]
fn outdated_skill_installations_carry_their_install_changes() {
    let files = vec![
        SkillFileChange { path: "/v/AGENTS.md".to_owned(), before_sha256: Some(sha("old")), after: Some("new".to_owned()) },
        SkillFileChange { path: "/v/skills/kb/SKILL.md".to_owned(), before_sha256: None, after: Some("skill".to_owned()) },
        SkillFileChange { path: "/v/skills/kb/old.md".to_owned(), before_sha256: Some(sha("x")), after: None },
    ];
    let links = vec![SkillLinkChange { path: "/v/skills/kb".to_owned(), target: "/c/kb".to_owned(), create: true }];
    let (c, conflict) = skill_component(
        SkillScope::Vault,
        SkillHost::Codex,
        "codex",
        "vault-1",
        &Some("/v/AGENTS.md".to_owned()),
        SkillInstallState::Current,
        true,
        "/v/skills",
        (files, links),
        "2.0.0",
    );
    assert!(conflict.is_none());
    assert_eq!(c.id, "skill:vault:codex");
    assert_eq!(c.vault_id.as_deref(), Some("vault-1"));
    assert_eq!(c.state, UpdateComponentState::Pending);
    assert_eq!(c.message, "Managed Skill installation is Outdated.");
    assert_eq!(c.changes.len(), 4);
    assert_eq!(c.changes[0].ownership, UpdateOwnership::ManagedBridge);
    assert_eq!(c.changes[0].action, UpdateFileAction::Update);
    assert_eq!(c.changes[0].after_sha256, Some(sha("new")));
    assert_eq!(c.changes[1].ownership, UpdateOwnership::ManagedSkill);
    assert_eq!(c.changes[1].action, UpdateFileAction::Create);
    assert_eq!(c.changes[2].action, UpdateFileAction::Delete);
    assert_eq!(c.changes[2].after_sha256, None);
    assert_eq!(c.changes[3].ownership, UpdateOwnership::Symlink);
    assert_eq!(c.changes[3].diff.as_deref(), Some("target: /c/kb"));
}

#[test]
fn modified_skill_installations_are_skipped_with_a_conflict() {
    let (c, conflict) = skill_component(
        SkillScope::User,
        SkillHost::GeminiCli,
        "gemini-cli",
        "vault-1",
        &None,
        SkillInstallState::Modified,
        false,
        "/home/u/.gemini/skills",
        (Vec::new(), Vec::new()),
        "2.0.0",
    );
    assert_eq!(c.state, UpdateComponentState::Skipped);
    let conflict = conflict.unwrap();
    assert_eq!(conflict.component_id, "skill:user:gemini-cli");
    assert_eq!(conflict.path.as_deref(), Some("/home/u/.gemini/skills"));
    assert_eq!(conflict.reason, "Managed Skill installation is Modified.");
}

#[test]
fn target_requests_accept_only_known_keys_and_their_own_release() {
    let keys = vec!["KB_SEARCH_MODE".to_owned(), "KB_FILES_INCLUDE_HIDDEN".to_owned()];
    assert!(check_target_request(&keys, "2.0.0", "2.0.0").is_ok());
    let bad = vec!["KB_SEARCH_MODE".to_owned(), "HOME".to_owned()];
    let e = check_target_request(&bad, "2.0.0", "2.0.0").unwrap_err();
    assert_eq!(e.code, ErrorCode::InvalidConfig);
    assert_eq!(e.message, "target update request: environment contains an unsupported key");
    let e = check_target_request(&keys, "2.0.1", "2.0.0").unwrap_err();
    assert_eq!(e.code, ErrorCode::UpdateVerificationFailed);
    assert_eq!(e.message, "The target planner version does not match the requested release.");
}

#[test]
fn executables_are_replaced_only_when_managed_and_different() {
    let old = Some(sha("v1"));
    let new = Some(sha("v2"));
    let c = executable_component(true, "/usr/local/bin/kb", &old, &new, "1.0.0", "2.0.0");
    assert_eq!(c.id, "executable");
    assert_eq!(c.kind, UpdateComponentKind::Executable);
    assert_eq!(c.state, UpdateComponentState::Pending);
    assert_eq!(c.changes.len(), 1);
    assert_eq!(c.changes[0].ownership, UpdateOwnership::Executable);
    assert_eq!(c.changes[0].action, UpdateFileAction::Replace);
    assert_eq!(c.from_version.as_deref(), Some("1.0.0"));
    assert!(plan_needs_review(&vec![c]));
    let same = executable_component(true, "/usr/local/bin/kb", &old, &old, "1.0.0", "2.0.0");
    assert_eq!(same.state, UpdateComponentState::Unchanged);
    assert_eq!(same.message, "The official executable is current.");
    let owned = executable_component(false, "/usr/bin/kb", &old, &new, "1.0.0", "2.0.0");
    assert_eq!(owned.state, UpdateComponentState::Skipped);
    assert!(owned.changes.is_empty());
    assert!(!plan_needs_review(&vec![same, owned]));
}

#[test]
fn update_components_and_skipped_notes_are_ordered() {
    let old = Some(sha("v1"));
    let exe = executable_component(true, "/bin/kb", &old, &old, "1", "2");
    let (skill, _) = skill_component(
        SkillScope::User,
        SkillHost::Codex,
        "codex",
        "v",
        &None,
        SkillInstallState::Current,
        false,
        "/s",
        (Vec::new(), Vec::new()),
        "2",
    );
    let sorted = sort_components(vec![skill, exe]);
    let ids: Vec<&str> = sorted.iter().map(|c| c.id.as_str()).collect();
    assert_eq!(ids, vec!["executable", "skill:user:codex"]);
    let skipped = vec!["vault:b: busy".to_owned(), "vault:a: gone".to_owned(), "vault:b: busy".to_owned()];
    assert_eq!(sort_skipped(&skipped), vec!["vault:a: gone".to_owned(), "vault:b: busy".to_owned()]);
}
