//! Where each Agent host keeps its Skills.
use vstd::prelude::*;
use crate::error::{config_message, ErrorCode, KbError};
use crate::text::{chars_of, trim, trimmed};
use crate::user_dirs::{decide_override, env_lookup, env_value, env_views, join, join_path, outcome_of, path_is_absolute};

verus! {

/// The home and configuration directories that Agent hosts live under.
#[derive(Debug, Clone)]
pub struct AgentRoots {
    pub home_dir: String,
    pub config_dir: String,
}

/// An Agent host that can load Skills.
#[derive(Debug, Clone, Copy, PartialEq, Eq, Structural)]
pub enum SkillHost {
    Codex,
    GeminiCli,
    OpenCode,
    OpenClaw,
    Hermes,
    DeepSeekHarness,
    Pi,
}

/// Whether a Skill is installed for one Vault or for the user.
#[derive(Debug, Clone, Copy, PartialEq, Eq, Structural)]
pub enum SkillScope {
    Vault,
    User,
}

/// What an override of `key` comes to: none without a value, an error when the
/// value is blank or not absolute, the value otherwise.
pub open spec fn agent_override_outcome(key: Seq<char>, value: Option<Seq<char>>, absolute: bool) -> Result<Option<Seq<char>>, Seq<char>> {
    match value {
        None => Ok(None),
        Some(v) => if trim(v).len() == 0 || !absolute {
            Err(config_message(key, "path must be a nonempty absolute path"@))
        } else {
            Ok(Some(v))
        },
    }
}

fn agent_override(environment: &Vec<(String, String)>, key: &str) -> (r: Result<Option<String>, KbError>)
    ensures
        env_lookup(env_views(environment@), key@) is None ==> r matches Ok(None),
        env_lookup(env_views(environment@), key@) matches Some(v) ==> {
            ||| outcome_of(r) == Err::<Option<Seq<char>>, Seq<char>>(config_message(key@, "path must be a nonempty absolute path"@))
            ||| (trim(v).len() > 0 && outcome_of(r) == Ok::<Option<Seq<char>>, Seq<char>>(Some(v)))
        },
        r matches Err(e) ==> e.code == ErrorCode::InvalidConfig,
{
    match env_value(environment, key) {
        None => Ok(None),
        Some(v) => {
            let absolute = path_is_absolute(v.as_str());
            if trimmed(chars_of(v.as_str()).as_slice()).len() == 0 || !absolute {
                Err(KbError::invalid_config(key, "path must be a nonempty absolute path"))
            } else {
                Ok(Some(v))
            }
        },
    }
}

impl AgentRoots {
    pub fn new(home_dir: String, config_dir: String) -> (r: AgentRoots)
        ensures
            r.home_dir == home_dir,
            r.config_dir == config_dir,
    {
        AgentRoots { home_dir, config_dir }
    }

    /// The roots: `KB_AGENT_HOME` and `KB_AGENT_CONFIG_DIR` when set, else the
    /// operating system's home and configuration directories.
    pub fn resolve(environment: &Vec<(String, String)>, os_home_dir: &str, os_config_dir: &str) -> (r: Result<AgentRoots, KbError>)
        ensures
            r matches Ok(a) ==> {
                &&& a.home_dir@ == match env_lookup(env_views(environment@), "KB_AGENT_HOME"@) {
                    Some(v) => v,
                    None => os_home_dir@,
                }
                &&& a.config_dir@ == match env_lookup(env_views(environment@), "KB_AGENT_CONFIG_DIR"@) {
                    Some(v) => v,
                    None => os_config_dir@,
                }
            },
            env_lookup(env_views(environment@), "KB_AGENT_HOME"@) is None
                && env_lookup(env_views(environment@), "KB_AGENT_CONFIG_DIR"@) is None ==> r is Ok,
    {
        let home = match agent_override(environment, "KB_AGENT_HOME")? {
            Some(v) => v,
            None => os_home_dir.to_owned(),
        };
        let config = match agent_override(environment, "KB_AGENT_CONFIG_DIR")? {
            Some(v) => v,
            None => os_config_dir.to_owned(),
        };
        Ok(AgentRoots::new(home, config))
    }
}

/// Where one host's Skills go for one scope.
#[derive(Debug, Clone)]
pub struct SkillTarget {
    pub host: SkillHost,
    pub scope: SkillScope,
    pub skills_root: String,
    pub legacy_skill_dir: String,
    pub bridge_file: Option<String>,
}

/// The Skills directory and bridge file of a host and scope, given the Vault
/// root and the Agent roots (Hermes has no Vault scope).
pub open spec fn target_paths(vault: Seq<char>, home: Seq<char>, config: Seq<char>, host: SkillHost, scope: SkillScope) -> (Seq<char>, Option<Seq<char>>) {
    match (scope, host) {
        (SkillScope::Vault, SkillHost::Codex) => (join_path(vault, ".agents/skills"@), Some(join_path(vault, "AGENTS.md"@))),
        (SkillScope::Vault, SkillHost::GeminiCli) => (join_path(vault, ".gemini/skills"@), Some(join_path(vault, "GEMINI.md"@))),
        (SkillScope::Vault, SkillHost::OpenCode) => (join_path(vault, ".opencode/skills"@), Some(join_path(vault, "AGENTS.md"@))),
        (SkillScope::User, SkillHost::Codex) => (
            join_path(join_path(home, ".codex"@), "skills"@),
            Some(join_path(join_path(home, ".codex"@), "AGENTS.md"@)),
        ),
        (SkillScope::User, SkillHost::GeminiCli) => (
            join_path(join_path(home, ".gemini"@), "skills"@),
            Some(join_path(join_path(home, ".gemini"@), "GEMINI.md"@)),
        ),
        (SkillScope::User, SkillHost::OpenCode) => (
            join_path(join_path(config, "opencode"@), "skills"@),
            Some(join_path(join_path(config, "opencode"@), "AGENTS.md"@)),
        ),
        (SkillScope::Vault, SkillHost::OpenClaw) => (join_path(vault, "skills"@), None),
        (SkillScope::User, SkillHost::OpenClaw) => (join_path(home, ".openclaw/skills"@), None),
        (SkillScope::User, SkillHost::Hermes) => (join_path(home, ".hermes/skills"@), None),
        (SkillScope::Vault, SkillHost::DeepSeekHarness) => (join_path(vault, ".dsh/skills"@), None),
        (SkillScope::User, SkillHost::DeepSeekHarness) => (join_path(home, ".dsh/skills"@), None),
        (SkillScope::Vault, SkillHost::Pi) => (join_path(vault, ".pi/skills"@), None),
        (SkillScope::User, SkillHost::Pi) => (join_path(home, ".pi/agent/skills"@), None),
        (SkillScope::Vault, SkillHost::Hermes) => (Seq::empty(), None),
    }
}

fn host_paths(vault: &str, roots: &AgentRoots, host: SkillHost, scope: SkillScope) -> (r: (String, Option<String>))
    requires
        !(scope == SkillScope::Vault && host == SkillHost::Hermes),
    ensures
        (r.0@, match r.1 { Some(b) => Some(b@), None => None }) == target_paths(vault@, roots.home_dir@, roots.config_dir@, host, scope),
{
    let home = roots.home_dir.as_str();
    match (scope, host) {
        (SkillScope::Vault, SkillHost::Codex) => (join(vault, ".agents/skills"), Some(join(vault, "AGENTS.md"))),
        (SkillScope::Vault, SkillHost::GeminiCli) => (join(vault, ".gemini/skills"), Some(join(vault, "GEMINI.md"))),
        (SkillScope::Vault, SkillHost::OpenCode) => (join(vault, ".opencode/skills"), Some(join(vault, "AGENTS.md"))),
        (SkillScope::User, SkillHost::Codex) => {
            let base = join(home, ".codex");
            (join(base.as_str(), "skills"), Some(join(base.as_str(), "AGENTS.md")))
        },
        (SkillScope::User, SkillHost::GeminiCli) => {
            let base = join(home, ".gemini");
            (join(base.as_str(), "skills"), Some(join(base.as_str(), "GEMINI.md")))
        },
        (SkillScope::User, SkillHost::OpenCode) => {
            let base = join(roots.config_dir.as_str(), "opencode");
            (join(base.as_str(), "skills"), Some(join(base.as_str(), "AGENTS.md")))
        },
        (SkillScope::Vault, SkillHost::OpenClaw) => (join(vault, "skills"), None),
        (SkillScope::User, SkillHost::OpenClaw) => (join(home, ".openclaw/skills"), None),
        (SkillScope::User, SkillHost::Hermes) => (join(home, ".hermes/skills"), None),
        (SkillScope::Vault, SkillHost::DeepSeekHarness) => (join(vault, ".dsh/skills"), None),
        (SkillScope::User, SkillHost::DeepSeekHarness) => (join(home, ".dsh/skills"), None),
        (SkillScope::Vault, SkillHost::Pi) => (join(vault, ".pi/skills"), None),
        (SkillScope::User, SkillHost::Pi) => (join(home, ".pi/agent/skills"), None),
        (SkillScope::Vault, SkillHost::Hermes) => (String::new(), None),
    }
}

/// The Skill target of a host and scope, given whether the Vault root and the
/// two Agent roots are absolute: an unsafe-path error unless all are, an error
/// for Hermes in Vault scope, the paths of `target_paths` otherwise (the legacy
/// Skill directory is `knowledge-brain` under the Skills root).
pub fn skill_target_from(
    vault_root: &str,
    roots: &AgentRoots,
    host: SkillHost,
    scope: SkillScope,
    roots_absolute: bool,
) -> (r: Result<SkillTarget, KbError>)
    ensures
        !roots_absolute ==> (r matches Err(e) && e.code == ErrorCode::UnsafePath),
        roots_absolute && host == SkillHost::Hermes && scope == SkillScope::Vault
            ==> (r matches Err(e) && e.code == ErrorCode::CapabilityUnavailable),
        roots_absolute && !(host == SkillHost::Hermes && scope == SkillScope::Vault) ==> (r matches Ok(t) && {
            let (root, bridge) = target_paths(vault_root@, roots.home_dir@, roots.config_dir@, host, scope);
            &&& t.host == host
            &&& t.scope == scope
            &&& t.skills_root@ == root
            &&& t.legacy_skill_dir@ == join_path(root, "knowledge-brain"@)
            &&& match t.bridge_file { Some(b) => bridge == Some(b@), None => bridge is None }
        }),
{
    if !roots_absolute {
        return Err(KbError::new(
            ErrorCode::UnsafePath,
            "Skill targets require absolute Vault and user roots.",
            false,
            "Resolve the Vault and operating-system user directories before installing a Skill.",
        ));
    }
    if host == SkillHost::Hermes && scope == SkillScope::Vault {
        return Err(KbError::new(
            ErrorCode::CapabilityUnavailable,
            "Hermes project Skills require a trusted Git project, but a Knowledge-Brain Vault does not require Git.",
            false,
            "Install Hermes Skills with --scope user, or configure and trust a project directly in Hermes.",
        ));
    }
    let (skills_root, bridge_file) = host_paths(vault_root, roots, host, scope);
    let legacy = join(skills_root.as_str(), "knowledge-brain");
    Ok(SkillTarget { host, scope, skills_root, legacy_skill_dir: legacy, bridge_file })
}

/// The Skill target of a host and scope (see `skill_target_from`).
pub fn skill_target(vault_root: &str, roots: &AgentRoots, host: SkillHost, scope: SkillScope) -> (r: Result<SkillTarget, KbError>)
    ensures
        vault_root@.len() == 0 || roots.home_dir@.len() == 0 || roots.config_dir@.len() == 0
            ==> (r matches Err(e) && e.code == ErrorCode::UnsafePath),
        host == SkillHost::Hermes && scope == SkillScope::Vault ==> r is Err,
        r matches Err(e) ==> e.code == ErrorCode::UnsafePath || (e.code == ErrorCode::CapabilityUnavailable
            && host == SkillHost::Hermes && scope == SkillScope::Vault),
        r matches Ok(t) ==> {
            let (root, bridge) = target_paths(vault_root@, roots.home_dir@, roots.config_dir@, host, scope);
            &&& t.host == host
            &&& t.scope == scope
            &&& t.skills_root@ == root
            &&& t.legacy_skill_dir@ == join_path(root, "knowledge-brain"@)
            &&& match t.bridge_file { Some(b) => bridge == Some(b@), None => bridge is None }
        },
{
    let absolute = path_is_absolute(vault_root) && path_is_absolute(roots.home_dir.as_str())
        && path_is_absolute(roots.config_dir.as_str());
    skill_target_from(vault_root, roots, host, scope, absolute)
}

/// The host to use: the explicit one, else the only detected one; an error
/// when none or several were detected.
pub fn resolve_skill_host(explicit: Option<SkillHost>, detected: &Vec<SkillHost>) -> (r: Result<SkillHost, KbError>)
    ensures
        explicit matches Some(h) ==> r == Ok::<SkillHost, KbError>(h),
        explicit is None && detected@.len() == 1 ==> (r matches Ok(h) && h == detected@[0]),
        explicit is None && detected@.len() == 0 ==> (r matches Err(e) && e.message@ == config_message(
            "auto Skill host"@,
            "no supported Agent host was detected; pass --host explicitly"@,
        )),
        explicit is None && detected@.len() > 1 ==> (r matches Err(e) && e.message@ == config_message(
            "auto Skill host"@,
            "host detection is ambiguous; pass --host explicitly"@,
        )),
{
    match explicit {
        Some(h) => Ok(h),
        None => {
            if detected.len() == 1 {
                Ok(detected[0])
            } else if detected.len() == 0 {
                Err(KbError::invalid_config("auto Skill host", "no supported Agent host was detected; pass --host explicitly"))
            } else {
                Err(KbError::invalid_config("auto Skill host", "host detection is ambiguous; pass --host explicitly"))
            }
        },
    }
}

} // verus!
