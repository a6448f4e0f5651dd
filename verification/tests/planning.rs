use kb_app::discovery::{decide_entry, framework_directory, framework_name, skipped, EntryDecision};
use kb_app::lock::LockMode;
use kb_app::managed_markdown::replace_region;
use kb_app::requests::{admission_plan, config_plan, resolve_context_path, AdmissionAction, AdmissionRequest, ConfigRequest};
use kb_app::config::ConfigTarget;
use kb_app::skill_plan::{install_state, plan_refusal, Installation, SkillAction, SkillInstallState};
use kb_app::template::{managed_rules, replace_rules, template_outcome, text_equal, ComponentState, TemplateCompatibility};
use kb_app::vault_upgrade::{plan_rules, plan_whole_file, write_for, FileStep, VaultUpgradeAction};
use kb_app::source_io::hash;
use kb_app::archive::normalize;

fn chars(s: &str) -> Vec<char> {
    s.chars().collect()
}

#[test]
fn entries_are_skipped_for_the_first_reason() {
    assert!(matches!(decide_entry("x", true, false, false, false, true, true), EntryDecision::Skip(r) if r == "link"));
    assert!(matches!(decide_entry(".GIT", false, true, false, true, false, true), EntryDecision::Skip(r) if r == "framework"));
    assert!(matches!(decide_entry(".hidden", false, false, false, false, true, true), EntryDecision::Skip(r) if r == "hidden"));
    assert!(matches!(decide_entry("a", false, false, true, false, true, true), EntryDecision::Skip(r) if r == "excluded"));
    assert!(matches!(decide_entry("dir", false, false, false, true, false, false), EntryDecision::Descend));
    assert!(matches!(decide_entry("p", false, false, false, false, false, true), EntryDecision::Skip(r) if r == "not_regular"));
    assert!(matches!(decide_entry("a.bin", false, false, false, false, true, false), EntryDecision::Skip(r) if r == "not_included"));
    assert!(matches!(decide_entry("a.md", false, false, false, false, true, true), EntryDecision::Read));
    assert!(framework_name(".Kb"));
    assert!(!framework_name("kb"));
    assert_eq!(skipped("Notes", "a/b.bin", "not_included").path, "Notes/a/b.bin");
    assert_eq!(framework_directory(".git").unwrap().reason, "framework");
    assert!(framework_directory("Notes").is_none());
}

#[test]
fn requests_take_the_locks_they_need() {
    let list = admission_plan(&AdmissionRequest::List);
    assert_eq!(list.command, "config admission list");
    assert!(matches!(list.lock, LockMode::Shared));
    let change = admission_plan(&AdmissionRequest::Change {
        action: AdmissionAction::Enable { id: "notes".to_owned() },
        write: true,
    });
    assert!(matches!(change.lock, LockMode::Exclusive));
    assert!(change.check_mutation);
    assert!(change.check_pending);
    let dry = config_plan(&ConfigRequest::SetValue {
        vault: None,
        target: ConfigTarget::Vault,
        key: "search.mode".to_owned(),
        value: "bm25".to_owned(),
        write: false,
    });
    assert_eq!(dry.command, "config set");
    assert!(matches!(dry.lock, LockMode::Shared));
    assert!(!dry.check_pending);
    assert_eq!(resolve_context_path("/work", "v", false), "/work/v");
    assert_eq!(resolve_context_path("/work", "/v", true), "/v");
}

#[test]
fn skill_states_and_refusals() {
    assert_eq!(install_state(true, true, None, false), SkillInstallState::Legacy);
    assert_eq!(install_state(true, false, None, false), SkillInstallState::Modified);
    assert_eq!(install_state(false, false, Some(Installation::OtherVault), false), SkillInstallState::Modified);
    assert_eq!(install_state(false, false, None, true), SkillInstallState::External);
    assert_eq!(install_state(false, false, None, false), SkillInstallState::Absent);
    assert_eq!(plan_refusal(SkillAction::Uninstall, SkillInstallState::Absent), Some("managed Skill is not installed"));
    assert_eq!(
        plan_refusal(SkillAction::Install, SkillInstallState::External),
        Some("managed Skill content changed or is not owned")
    );
    assert_eq!(plan_refusal(SkillAction::Install, SkillInstallState::Absent), None);
}

#[test]
fn rules_regions_are_replaced_in_place() {
    let original = "intro\n<!-- kb:rules:start -->\nold\n<!-- kb:rules:end -->\noutro\n";
    assert_eq!(managed_rules(original).as_deref(), Some("\nold\n"));
    let replaced = replace_rules(original, "\nnew\n");
    assert_eq!(replaced, "intro\n<!-- kb:rules:start -->\nnew\n<!-- kb:rules:end -->\noutro\n");
    assert!(managed_rules("no markers").is_none());
    assert!(text_equal("a\r\nb", "a\nb"));
    assert!(!text_equal("a", "b"));
    assert_eq!(template_outcome(true, true, true), (ComponentState::Skipped, TemplateCompatibility::Modified, false));
    assert_eq!(template_outcome(false, true, false), (ComponentState::Pending, TemplateCompatibility::MissingManifest, true));
    assert_eq!(template_outcome(false, false, true), (ComponentState::Unchanged, TemplateCompatibility::Current, true));
}

#[test]
fn upgrade_steps_keep_write_or_conflict() {
    assert!(matches!(plan_whole_file(None, "t"), FileStep::Write(t) if t == "t"));
    assert!(matches!(plan_whole_file(Some("t\r\n"), "t\n"), FileStep::Keep));
    assert!(matches!(plan_whole_file(Some("mine"), "t"), FileStep::Conflict));
    let target = "A\n<!-- kb:rules:start -->\nnew\n<!-- kb:rules:end -->\n";
    let baselines = vec!["old template\n".to_owned()];
    assert!(matches!(plan_rules(Some("old template\n"), target, &baselines), FileStep::Write(t) if t == target));
    let edited = "Mine\n<!-- kb:rules:start -->\nold\n<!-- kb:rules:end -->\nmore\n";
    assert!(matches!(
        plan_rules(Some(edited), target, &baselines),
        FileStep::Write(t) if t == "Mine\n<!-- kb:rules:start -->\nnew\n<!-- kb:rules:end -->\nmore\n"
    ));
    assert!(matches!(plan_rules(Some("no markers"), target, &baselines), FileStep::Conflict));
    let w = write_for("KB.md", Some("before"), "after".to_owned());
    assert_eq!(w.action, VaultUpgradeAction::Update);
    assert_eq!(w.before_sha256, Some(hash(b"before")));
    assert_eq!(w.after_sha256, hash(b"after"));
    assert_eq!(write_for("KB.md", None, "x".to_owned()).action, VaultUpgradeAction::Create);
}

#[test]
fn managed_regions_are_replaced_between_markers() {
    let original = chars("top\n<!-- kb:managed:start -->\nold\n<!-- kb:managed:end -->\nbottom\n");
    let out: String = replace_region(&original, &chars("new")).unwrap().into_iter().collect();
    assert!(out.starts_with("top\n<!-- kb:managed:start -->"));
    assert!(out.contains("new"));
    assert!(!out.contains("old"));
    assert!(out.ends_with("<!-- kb:managed:end -->\nbottom\n"));
    assert!(replace_region(&chars("no markers"), &chars("x")).is_err());
}

#[test]
fn archive_paths_are_normalized() {
    let ok: String = normalize(&chars("a/./b//c/../d")).unwrap().into_iter().collect();
    assert_eq!(ok, "a/b/d");
    assert!(normalize(&chars("/abs")).is_err());
    assert!(normalize(&chars("../x")).is_err());
    assert!(normalize(&chars("./")).is_err());
}
