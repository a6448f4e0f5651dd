use sha2::Digest;

use kb_app::error::ErrorCode;
use kb_app::template_state::{plan_from_manifest, plan_without_manifest, ManagedTemplateRecord, TemplateOwnership, TemplateTarget};

fn sha(text: &str) -> String {
    hex::encode(sha2::Sha256::digest(text.as_bytes()))
}

fn target(path: &str, content: &str, current: Option<&str>) -> TemplateTarget {
    TemplateTarget {
        path: path.to_owned(),
        sha256: sha(content),
        content: content.to_owned(),
        current: current.map(|c| c.to_owned()),
    }
}

fn record(path: &str, ownership: TemplateOwnership, owned: &str) -> ManagedTemplateRecord {
    ManagedTemplateRecord { path: path.to_owned(), ownership, sha256: sha(owned) }
}

const RULES_FILE: &str = "# KB\n<!-- kb:rules:start -->\nold rules\n<!-- kb:rules:end -->\nmine\n";

#[test]
fn unrecorded_missing_files_are_created_with_the_manifest() {
    let targets = vec![target(".kb/schemas/config.schema.json", "{}", None)];
    let plan = plan_from_manifest(&Vec::new(), &targets, "rules", false, Some("old: 1\n".to_owned()), "new: 2\n");
    assert!(plan.conflicts.is_empty());
    assert_eq!(plan.writes.len(), 2);
    assert_eq!(plan.writes[0].path, ".kb/schemas/config.schema.json");
    assert_eq!(plan.writes[0].before_sha256, None);
    assert_eq!(plan.writes[0].after_sha256, sha("{}"));
    assert_eq!(plan.writes[1].path, ".kb/template.yml");
    assert_eq!(plan.writes[1].before_sha256, Some(sha("old: 1\n")));
    assert_eq!(plan.writes[1].content, "new: 2\n");
}

#[test]
fn unrecorded_existing_files_conflict() {
    let targets = vec![target(".kb/schemas/config.schema.json", "{}", Some("{\"mine\":1}"))];
    let plan = plan_from_manifest(&Vec::new(), &targets, "rules", false, None, "new: 2\n");
    assert!(plan.writes.is_empty());
    assert_eq!(plan.conflicts.len(), 1);
    assert_eq!(plan.conflicts[0].reason, "A target template path exists without a recorded ownership baseline.");
}

#[test]
fn current_whole_files_stay_and_a_current_manifest_is_kept() {
    let records = vec![record("a.json", TemplateOwnership::WholeFile, "{}")];
    let targets = vec![target("a.json", "{}", Some("{}"))];
    let plan = plan_from_manifest(&records, &targets, "rules", true, Some("m".to_owned()), "m");
    assert!(plan.writes.is_empty());
    assert!(plan.conflicts.is_empty());
    assert_eq!(plan.unchanged, vec!["a.json".to_owned()]);
}

#[test]
fn outdated_whole_files_are_rewritten() {
    let records = vec![record("a.json", TemplateOwnership::WholeFile, "{}")];
    let targets = vec![target("a.json", "{\"v\":2}", Some("{}"))];
    let plan = plan_from_manifest(&records, &targets, "rules", true, Some("m".to_owned()), "m2");
    assert_eq!(plan.writes.len(), 2);
    assert_eq!(plan.writes[0].before_sha256, Some(sha("{}")));
    assert_eq!(plan.writes[0].content, "{\"v\":2}");
    assert_eq!(plan.writes[1].path, ".kb/template.yml");
}

#[test]
fn customized_whole_files_conflict_and_nothing_is_written() {
    let records = vec![record("a.json", TemplateOwnership::WholeFile, "{}")];
    let targets = vec![target("a.json", "{\"v\":2}", Some("{\"mine\":true}"))];
    let plan = plan_from_manifest(&records, &targets, "rules", false, None, "m2");
    assert!(plan.writes.is_empty());
    assert_eq!(plan.conflicts.len(), 1);
    assert_eq!(plan.conflicts[0].path, "a.json");
    assert_eq!(plan.conflicts[0].reason, "The product-managed file differs from its recorded installation baseline.");
}

#[test]
fn the_rules_region_is_replaced_and_the_rest_kept() {
    let records = vec![record("KB.md", TemplateOwnership::MarkedRegion, "\nold rules\n")];
    let targets = vec![target("KB.md", "unused", Some(RULES_FILE))];
    let plan = plan_from_manifest(&records, &targets, "\nnew rules\n", true, None, "m");
    assert!(plan.conflicts.is_empty());
    assert_eq!(plan.writes[0].path, "KB.md");
    assert_eq!(
        plan.writes[0].content,
        "# KB\n<!-- kb:rules:start -->\nnew rules\n<!-- kb:rules:end -->\nmine\n"
    );
    assert_eq!(plan.writes[0].before_sha256, Some(sha(RULES_FILE)));
}

#[test]
fn customized_or_missing_rules_conflict() {
    let records = vec![record("KB.md", TemplateOwnership::MarkedRegion, "\nother\n")];
    let targets = vec![target("KB.md", "unused", Some(RULES_FILE))];
    let plan = plan_from_manifest(&records, &targets, "\nnew rules\n", true, None, "m");
    assert_eq!(plan.conflicts[0].reason, "The product-managed rules region was customized after installation.");
    assert!(plan.conflicts[0].next_action.starts_with("Keep exactly one ordered marker pair:\n<!-- kb:rules:start -->"));
    let missing = vec![target("KB.md", "unused", None)];
    let plan = plan_from_manifest(&records, &missing, "\nnew rules\n", true, None, "m");
    assert_eq!(plan.conflicts[0].reason, "The managed rules file is missing.");
    let unmarked = vec![target("KB.md", "unused", Some("no markers"))];
    let plan = plan_from_manifest(&records, &unmarked, "\nnew rules\n", true, None, "m");
    assert_eq!(plan.conflicts[0].reason, "The rules markers are missing, duplicated, or reversed.");
}

#[test]
fn reviewed_plan_digests_must_match() {
    let plan = b"{\"operation\":1}";
    let digest = sha("{\"operation\":1}");
    assert!(kb_app::knowledge_apply::validate_digest(plan, &digest).is_ok());
    let err = kb_app::knowledge_apply::validate_digest(b"{\"operation\":2}", &digest).err().unwrap();
    assert_eq!(err.code, ErrorCode::PlanStale);
    assert_eq!(err.message, "Reviewed plan contents changed.");
    assert!(kb_app::source_apply::validate_digest(plan, &digest).is_ok());
    let err = kb_app::source_apply::validate_digest(plan, "0000").err().unwrap();
    assert_eq!(err.remediation, "Run kb review and inspect a fresh plan.");
}

#[test]
fn vaults_without_a_manifest_get_missing_files_and_the_manifest() {
    let schemas = vec![target(".kb/schemas/config.schema.json", "{}\n", Some("{}\r\n"))];
    let plan = plan_without_manifest(None, "rules v2", &Vec::new(), &Vec::new(), &schemas, "manifest");
    assert_eq!(plan.writes.len(), 2);
    assert_eq!(plan.writes[0].path, "KB.md");
    assert_eq!(plan.writes[0].content, "rules v2");
    assert_eq!(plan.unchanged, vec![".kb/schemas/config.schema.json".to_owned()]);
    assert_eq!(plan.writes[1].path, ".kb/template.yml");
    assert_eq!(plan.writes[1].before_sha256, None);
}

#[test]
fn vaults_without_a_manifest_upgrade_known_rules_and_refuse_custom_ones() {
    let legacy = vec!["old release\n".to_owned()];
    let plan = plan_without_manifest(Some("old release\r\n".to_owned()), "new\n", &legacy, &Vec::new(), &Vec::new(), "m");
    assert_eq!(plan.writes[0].path, "KB.md");
    assert_eq!(plan.writes[0].before_sha256, Some(sha("old release\r\n")));
    let known = vec![sha("\nold rules\n")];
    let plan = plan_without_manifest(Some(RULES_FILE.to_owned()), "new\n", &legacy, &known, &Vec::new(), "m");
    assert_eq!(plan.unchanged, vec!["KB.md".to_owned()]);
    let plan = plan_without_manifest(Some("custom".to_owned()), "new\n", &legacy, &known, &Vec::new(), "m");
    assert!(plan.writes.is_empty());
    assert_eq!(plan.conflicts[0].reason, "The customized rules file has no known product ownership baseline.");
    let schemas = vec![target(".kb/schemas/admission.schema.json", "{}", Some("{\"x\":1}"))];
    let plan = plan_without_manifest(None, "new\n", &legacy, &known, &schemas, "m");
    assert_eq!(plan.conflicts[0].reason, "The product schema differs from every known baseline.");
    assert_eq!(plan.writes.len(), 1);
}
