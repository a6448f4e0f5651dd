use kb_app::archive::resolve;
use kb_app::error::ErrorCode;
use kb_app::registry::unregistered;
use kb_app::resource_read::{resource_error, stale_cursor};
use kb_app::skill_hosts::{resolve_skill_host, skill_target, skill_target_from, AgentRoots, SkillHost, SkillScope};
use kb_app::status::update_pending_for;
use kb_app::template::{parse_managed_rules, MarkerError};
use kb_app::update_store::{UpdateExecutionState, UpdateStore};
use kb_app::user_dirs::{decide_override, env_value, UserPaths};
use kb_app::vault::vault_not_found;
use kb_app::vault_upgrade::conflict;

fn env(v: &[(&str, &str)]) -> Vec<(String, String)> {
    v.iter().map(|(k, x)| (k.to_string(), x.to_string())).collect()
}

fn roots() -> AgentRoots {
    AgentRoots { home_dir: "/home/u".to_string(), config_dir: "/home/u/.config".to_string() }
}

#[test]
fn agent_roots_follow_their_overrides() {
    let r = AgentRoots::resolve(&env(&[("KB_AGENT_HOME", "/agents")]), "/home/u", "/home/u/.config").unwrap();
    assert_eq!(r.home_dir, "/agents");
    assert_eq!(r.config_dir, "/home/u/.config");
    assert!(AgentRoots::resolve(&env(&[("KB_AGENT_HOME", "relative")]), "/home/u", "/c").is_err());
}

#[test]
fn user_paths_follow_their_overrides() {
    let p = UserPaths::resolve(&env(&[("KB_CACHE_DIR", "/tmp/kb-cache")]), "/c", "/d", "/k").unwrap();
    assert_eq!(p.config_dir, "/c");
    assert_eq!(p.state_dir, "/d/state");
    assert_eq!(p.cache_dir, "/tmp/kb-cache");
    assert_eq!(env_value(&env(&[("A", "1"), ("B", "2")]), "B").as_deref(), Some("2"));
    assert!(env_value(&env(&[("A", "1")]), "C").is_none());
    assert_eq!(decide_override("KB_STATE_DIR", None, false).unwrap(), None);
    assert_eq!(decide_override("KB_STATE_DIR", Some("/s".to_string()), true).unwrap().as_deref(), Some("/s"));
    let e = decide_override("KB_STATE_DIR", Some("s".to_string()), false).unwrap_err();
    assert_eq!(e.code, ErrorCode::InvalidConfig);
    let store = UpdateStore::new(&p);
    assert_eq!(store.root(), "/d/state/updates");
    assert_eq!(store.operation_directory("op-1"), "/d/state/updates/op-1");
}

#[test]
fn skill_targets_depend_on_host_and_scope() {
    let t = skill_target("/vault", &roots(), SkillHost::Codex, SkillScope::Vault).unwrap();
    assert_eq!(t.skills_root, "/vault/.agents/skills");
    assert_eq!(t.legacy_skill_dir, "/vault/.agents/skills/knowledge-brain");
    assert_eq!(t.bridge_file.as_deref(), Some("/vault/AGENTS.md"));
    let u = skill_target("/vault", &roots(), SkillHost::OpenCode, SkillScope::User).unwrap();
    assert_eq!(u.skills_root, "/home/u/.config/opencode/skills");
    let pi = skill_target("/vault", &roots(), SkillHost::Pi, SkillScope::User).unwrap();
    assert_eq!(pi.skills_root, "/home/u/.pi/agent/skills");
    assert!(pi.bridge_file.is_none());
    let e = skill_target("/vault", &roots(), SkillHost::Hermes, SkillScope::Vault).unwrap_err();
    assert_eq!(e.code, ErrorCode::CapabilityUnavailable);
    let e = skill_target("vault", &roots(), SkillHost::Codex, SkillScope::Vault).unwrap_err();
    assert_eq!(e.code, ErrorCode::UnsafePath);
    assert_eq!(skill_target_from("/v", &roots(), SkillHost::Codex, SkillScope::Vault, false).unwrap_err().code, ErrorCode::UnsafePath);
}

#[test]
fn the_skill_host_is_explicit_or_the_only_detected_one() {
    assert_eq!(resolve_skill_host(Some(SkillHost::Pi), &Vec::new()).unwrap(), SkillHost::Pi);
    assert_eq!(resolve_skill_host(None, &vec![SkillHost::Codex]).unwrap(), SkillHost::Codex);
    assert_eq!(
        resolve_skill_host(None, &Vec::new()).unwrap_err().message,
        "auto Skill host: no supported Agent host was detected; pass --host explicitly"
    );
    assert_eq!(
        resolve_skill_host(None, &vec![SkillHost::Codex, SkillHost::Pi]).unwrap_err().message,
        "auto Skill host: host detection is ambiguous; pass --host explicitly"
    );
}

#[test]
fn archive_references_resolve_against_their_file() {
    assert_eq!(resolve("OEBPS/text/ch1.xhtml", "../images/a.png").unwrap(), "OEBPS/images/a.png");
    assert_eq!(resolve("OEBPS/text/ch1.xhtml", "ch2.xhtml#s1").unwrap(), "OEBPS/text/ch2.xhtml#s1");
    assert_eq!(resolve("OEBPS/ch1.xhtml", "https://example.org/x").unwrap(), "https://example.org/x");
    assert_eq!(resolve("OEBPS/ch1.xhtml", "#top").unwrap(), "OEBPS/ch1.xhtml#top");
    assert!(resolve("a.xhtml", "../../x").is_err());
}

#[test]
fn errors_name_their_subject() {
    let e = unregistered("v-9");
    assert_eq!(e.code, ErrorCode::VaultNotFound);
    assert_eq!(e.message, "Vault v-9 is not registered.");
    assert_eq!(e.remediation, "Run kb vault register <path> first.");
    assert_eq!(vault_not_found("no vault here").code, ErrorCode::VaultNotFound);
    let s = stale_cursor("kb://v/Wiki/a.md");
    assert_eq!(s.code, ErrorCode::ResourceCursorStale);
    assert_eq!(s.resource_uri.as_deref(), Some("kb://v/Wiki/a.md"));
    let r = resource_error(ErrorCode::ResourceNotFound, "kb://v/x", "missing", "look elsewhere");
    assert_eq!(r.message, "missing");
    assert_eq!(r.remediation, "look elsewhere");
    let c = conflict("KB.md", "edited", "merge by hand");
    assert_eq!((c.path.as_str(), c.reason.as_str(), c.next_action.as_str()), ("KB.md", "edited", "merge by hand"));
}

#[test]
fn unfinished_updates_are_pending_for_their_vaults() {
    let vaults = vec!["v1".to_string(), "v2".to_string()];
    assert!(update_pending_for(Some("confirmed"), Some(&vaults), "v2"));
    assert!(!update_pending_for(Some("completed"), Some(&vaults), "v2"));
    assert!(!update_pending_for(Some("confirmed"), Some(&vaults), "v3"));
    assert!(!update_pending_for(None, None, "v1"));
    assert!(update_pending_for(None, Some(&vaults), "v1"));
}

#[test]
fn the_rules_region_is_located_by_its_markers() {
    let text = "a\n<!-- kb:rules:start -->\nrules\n<!-- kb:rules:end -->\nb";
    let region = parse_managed_rules(text).unwrap();
    assert_eq!(region.content, "\nrules\n");
    assert_eq!(&text[region.content_start..region.content_end], "\nrules\n");
    assert_eq!(parse_managed_rules("plain").unwrap_err(), MarkerError::Missing);
    assert_eq!(
        parse_managed_rules("<!-- kb:rules:end --><!-- kb:rules:start -->").unwrap_err(),
        MarkerError::Reversed
    );
    assert_eq!(
        parse_managed_rules("<!-- kb:rules:start --><!-- kb:rules:start --><!-- kb:rules:end -->").unwrap_err(),
        MarkerError::Duplicate
    );
}

#[test]
fn execution_states_have_their_names() {
    assert_eq!(UpdateExecutionState::Preview.name(), "Preview");
    assert_eq!(UpdateExecutionState::CompletedWithSkips.name(), "CompletedWithSkips");
    assert_eq!(UpdateExecutionState::Failed.name(), "Failed");
}
