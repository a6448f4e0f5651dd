//! Components of an update plan: what a managed Skill installation needs to
//! reach the target version.
use vstd::prelude::*;
use crate::skill_hosts::{SkillHost, SkillScope};
use crate::skill_plan::{SkillFileChange, SkillInstallState, SkillLinkChange};
use crate::source_io::hash;
use crate::template_state::text_digest;
use crate::error::{ErrorCode, KbError};
use crate::text::{append_chars, chars_of, equal_chars, string_of, views};

verus! {

/// Whether a component changes in an update.
#[derive(Debug, Clone, Copy, PartialEq, Eq, Structural)]
pub enum UpdateComponentState {
    Unchanged,
    Pending,
    RebuildRequired,
    Skipped,
}

/// What kind of thing a component is.
#[derive(Debug, Clone, Copy, PartialEq, Eq, Structural)]
pub enum UpdateComponentKind {
    Executable,
    VaultTemplate,
    SearchIndex,
    ManagedSkill,
}

/// Who owns a file an update changes.
#[derive(Debug, Clone, Copy, PartialEq, Eq, Structural)]
pub enum UpdateOwnership {
    Executable,
    MarkedRegion,
    WholeFile,
    RebuildableIndex,
    ManagedSkill,
    ManagedBridge,
    Symlink,
}

/// What an update does to a file.
#[derive(Debug, Clone, Copy, PartialEq, Eq, Structural)]
pub enum UpdateFileAction {
    Create,
    Update,
    Replace,
    Delete,
    Rebuild,
}

/// One file an update changes.
pub struct UpdateFileChange {
    pub path: String,
    pub ownership: UpdateOwnership,
    pub action: UpdateFileAction,
    pub before_sha256: Option<String>,
    pub after_sha256: Option<String>,
    pub diff: Option<String>,
}

/// Something an update must leave alone, why, and what to do about it.
pub struct UpdateConflict {
    pub component_id: String,
    pub path: Option<String>,
    pub reason: String,
    pub next_action: String,
}

/// One component of an update plan.
pub struct UpdateComponent {
    pub id: String,
    pub kind: UpdateComponentKind,
    pub state: UpdateComponentState,
    pub vault_id: Option<String>,
    pub host: Option<SkillHost>,
    pub skill_scope: Option<SkillScope>,
    pub from_version: Option<String>,
    pub to_version: Option<String>,
    pub changes: Vec<UpdateFileChange>,
    pub message: String,
}

pub struct FileChangeView {
    pub path: Seq<char>,
    pub ownership: UpdateOwnership,
    pub action: UpdateFileAction,
    pub before_sha256: Option<Seq<char>>,
    pub after_sha256: Option<Seq<char>>,
    pub diff: Option<Seq<char>>,
}

pub struct ConflictView {
    pub component_id: Seq<char>,
    pub path: Option<Seq<char>>,
    pub reason: Seq<char>,
    pub next_action: Seq<char>,
}

pub struct ComponentView {
    pub id: Seq<char>,
    pub kind: UpdateComponentKind,
    pub state: UpdateComponentState,
    pub vault_id: Option<Seq<char>>,
    pub host: Option<SkillHost>,
    pub skill_scope: Option<SkillScope>,
    pub from_version: Option<Seq<char>>,
    pub to_version: Option<Seq<char>>,
    pub changes: Seq<FileChangeView>,
    pub message: Seq<char>,
}

pub open spec fn opt(s: Option<String>) -> Option<Seq<char>> {
    match s {
        Some(v) => Some(v@),
        None => None,
    }
}

pub open spec fn change_view(c: UpdateFileChange) -> FileChangeView {
    FileChangeView {
        path: c.path@,
        ownership: c.ownership,
        action: c.action,
        before_sha256: opt(c.before_sha256),
        after_sha256: opt(c.after_sha256),
        diff: opt(c.diff),
    }
}

pub open spec fn conflict_view(c: UpdateConflict) -> ConflictView {
    ConflictView { component_id: c.component_id@, path: opt(c.path), reason: c.reason@, next_action: c.next_action@ }
}

pub open spec fn component_view(c: UpdateComponent) -> ComponentView {
    ComponentView {
        id: c.id@,
        kind: c.kind,
        state: c.state,
        vault_id: opt(c.vault_id),
        host: c.host,
        skill_scope: c.skill_scope,
        from_version: opt(c.from_version),
        to_version: opt(c.to_version),
        changes: c.changes@.map_values(|x: UpdateFileChange| change_view(x)),
        message: c.message@,
    }
}

/// The name of an installation state, as the plan's messages print it.
pub open spec fn install_state_name(s: SkillInstallState) -> Seq<char> {
    match s {
        SkillInstallState::Absent => "Absent"@,
        SkillInstallState::Current => "Current"@,
        SkillInstallState::Partial => "Partial"@,
        SkillInstallState::Modified => "Modified"@,
        SkillInstallState::External => "External"@,
        SkillInstallState::Legacy => "Legacy"@,
    }
}

/// The id of a managed Skill component: its scope and its host's name.
pub open spec fn skill_component_id(scope: SkillScope, host_name: Seq<char>) -> Seq<char> {
    "skill:"@ + (if scope == SkillScope::Vault { "vault"@ } else { "user"@ }) + ":"@ + host_name
}

/// The update change of one file of a Skill plan: the bridge file is owned
/// as the bridge, the others as Skill files; a file without content after is
/// deleted, one without a digest before is created, others are updated.
pub open spec fn skill_file_update(c: crate::skill_plan::SkillFileChange, bridge_file: Option<Seq<char>>) -> FileChangeView {
    FileChangeView {
        path: c.path@,
        ownership: if bridge_file == Some(c.path@) { UpdateOwnership::ManagedBridge } else { UpdateOwnership::ManagedSkill },
        action: match (c.before_sha256, c.after) {
            (_, None) => UpdateFileAction::Delete,
            (None, Some(_)) => UpdateFileAction::Create,
            (Some(_), Some(_)) => UpdateFileAction::Update,
        },
        before_sha256: opt(c.before_sha256),
        after_sha256: match c.after {
            Some(a) => Some(text_digest(a@)),
            None => None,
        },
        diff: None,
    }
}

/// The update change of one link of a Skill plan.
pub open spec fn skill_link_update(l: SkillLinkChange) -> FileChangeView {
    FileChangeView {
        path: l.path@,
        ownership: UpdateOwnership::Symlink,
        action: if l.create { UpdateFileAction::Create } else { UpdateFileAction::Delete },
        before_sha256: None,
        after_sha256: None,
        diff: Some("target: "@ + l.target@),
    }
}

/// The component of a managed Skill installation for the target version: a
/// current installation is unchanged; an outdated one is pending with the
/// changes of its install plan (`preview`: its files, then its links); any
/// other state is skipped with a conflict at its Skill root.
pub open spec fn spec_skill_component(
    scope: SkillScope,
    host: SkillHost,
    host_name: Seq<char>,
    vault_id: Seq<char>,
    bridge_file: Option<Seq<char>>,
    state: SkillInstallState,
    outdated: bool,
    skills_root: Seq<char>,
    preview: (Seq<crate::skill_plan::SkillFileChange>, Seq<SkillLinkChange>),
    target_version: Seq<char>,
) -> (ComponentView, Option<ConflictView>) {
    let id = skill_component_id(scope, host_name);
    let (component_state, changes, conflict) = if state == SkillInstallState::Current && !outdated {
        (UpdateComponentState::Unchanged, Seq::<FileChangeView>::empty(), None)
    } else if outdated {
        (
            UpdateComponentState::Pending,
            preview.0.map_values(|c: crate::skill_plan::SkillFileChange| skill_file_update(c, bridge_file))
                + preview.1.map_values(|l: SkillLinkChange| skill_link_update(l)),
            None,
        )
    } else {
        (UpdateComponentState::Skipped, Seq::<FileChangeView>::empty(), Some(ConflictView {
            component_id: id,
            path: Some(skills_root),
            reason: "Managed Skill installation is "@ + install_state_name(state) + "."@,
            next_action: "Restore the recorded managed baseline or update this installation through its owning installer."@,
        }))
    };
    (
        ComponentView {
            id,
            kind: UpdateComponentKind::ManagedSkill,
            state: component_state,
            vault_id: if scope == SkillScope::Vault { Some(vault_id) } else { None },
            host: Some(host),
            skill_scope: Some(scope),
            from_version: None,
            to_version: Some(target_version),
            changes,
            message: "Managed Skill installation is "@ + (if outdated { "Outdated"@ } else { install_state_name(state) }) + "."@,
        },
        conflict,
    )
}

fn state_name_exec(s: SkillInstallState) -> (n: &'static str)
    ensures
        n@ == install_state_name(s),
{
    match s {
        SkillInstallState::Absent => "Absent",
        SkillInstallState::Current => "Current",
        SkillInstallState::Partial => "Partial",
        SkillInstallState::Modified => "Modified",
        SkillInstallState::External => "External",
        SkillInstallState::Legacy => "Legacy",
    }
}

fn concat3(a: &str, b: &str, c: &str) -> (s: String)
    ensures
        s@ == a@ + b@ + c@,
{
    let mut v = chars_of(a);
    append_chars(&mut v, chars_of(b).as_slice());
    append_chars(&mut v, chars_of(c).as_slice());
    string_of(v.as_slice())
}

fn concat2(a: &str, b: &str) -> (s: String)
    ensures
        s@ == a@ + b@,
{
    let mut v = chars_of(a);
    append_chars(&mut v, chars_of(b).as_slice());
    string_of(v.as_slice())
}

fn file_update(c: &SkillFileChange, bridge_file: &Option<String>) -> (u: UpdateFileChange)
    ensures
        change_view(u) == skill_file_update(*c, opt(*bridge_file)),
{
    let is_bridge = match bridge_file {
        Some(b) => equal_chars(chars_of(b.as_str()).as_slice(), chars_of(c.path.as_str()).as_slice()),
        None => false,
    };
    let action = match (&c.before_sha256, &c.after) {
        (_, None) => UpdateFileAction::Delete,
        (None, Some(_)) => UpdateFileAction::Create,
        (Some(_), Some(_)) => UpdateFileAction::Update,
    };
    let after_sha256 = match &c.after {
        Some(a) => Some(hash(a.as_str().as_bytes())),
        None => None,
    };
    let before_sha256 = match &c.before_sha256 {
        Some(b) => Some(b.clone()),
        None => None,
    };
    UpdateFileChange {
        path: c.path.clone(),
        ownership: if is_bridge { UpdateOwnership::ManagedBridge } else { UpdateOwnership::ManagedSkill },
        action,
        before_sha256,
        after_sha256,
        diff: None,
    }
}

/// The component of a managed Skill installation (see `spec_skill_component`):
/// `state` is the installation's state at its target, `outdated` whether its
/// recorded assets differ from this build's, `skills_root` where the status
/// found it, and `preview` the files and links of its install plan.
pub fn skill_component(
    scope: SkillScope,
    host: SkillHost,
    host_name: &str,
    vault_id: &str,
    bridge_file: &Option<String>,
    state: SkillInstallState,
    outdated: bool,
    skills_root: &str,
    preview: (Vec<SkillFileChange>, Vec<SkillLinkChange>),
    target_version: &str,
) -> (r: (UpdateComponent, Option<UpdateConflict>))
    ensures
        (component_view(r.0), match r.1 {
            Some(c) => Some(conflict_view(c)),
            None => None,
        }) == spec_skill_component(
            scope,
            host,
            host_name@,
            vault_id@,
            opt(*bridge_file),
            state,
            outdated,
            skills_root@,
            (preview.0@, preview.1@),
            target_version@,
        ),
{
    let ghost pv = (preview.0@, preview.1@);
    let scope_name = match scope {
        SkillScope::Vault => "vault",
        SkillScope::User => "user",
    };
    let mut idv = chars_of("skill:");
    append_chars(&mut idv, chars_of(scope_name).as_slice());
    append_chars(&mut idv, chars_of(":").as_slice());
    append_chars(&mut idv, chars_of(host_name).as_slice());
    let id = string_of(idv.as_slice());
    assert(id@ == skill_component_id(scope, host_name@));
    let mut changes: Vec<UpdateFileChange> = Vec::new();
    let mut conflict: Option<UpdateConflict> = None;
    let component_state = if state == SkillInstallState::Current && !outdated {
        UpdateComponentState::Unchanged
    } else if outdated {
        let (files, links) = preview;
        let mut i: usize = 0;
        while i < files.len()
            invariant
                i <= files@.len(),
                files@ == pv.0,
                changes@.map_values(|x: UpdateFileChange| change_view(x))
                    == pv.0.take(i as int).map_values(|c: SkillFileChange| skill_file_update(c, opt(*bridge_file))),
            decreases files@.len() - i,
        {
            let u = file_update(&files[i], bridge_file);
            let ghost before = changes@;
            changes.push(u);
            proof {
                assert(pv.0.take(i + 1) =~= pv.0.take(i as int).push(files@[i as int]));
                assert(changes@.map_values(|x: UpdateFileChange| change_view(x)) =~= before.map_values(
                    |x: UpdateFileChange| change_view(x),
                ).push(change_view(u)));
                assert(pv.0.take(i + 1).map_values(|c: SkillFileChange| skill_file_update(c, opt(*bridge_file)))
                    =~= pv.0.take(i as int).map_values(|c: SkillFileChange| skill_file_update(c, opt(*bridge_file))).push(
                    skill_file_update(files@[i as int], opt(*bridge_file)),
                ));
            }
            i = i + 1;
        }
        proof {
            assert(pv.0.take(files@.len() as int) =~= pv.0);
            assert(pv.1.take(0) =~= Seq::<SkillLinkChange>::empty());
        }
        let ghost file_part = changes@.map_values(|x: UpdateFileChange| change_view(x));
        let mut j: usize = 0;
        while j < links.len()
            invariant
                j <= links@.len(),
                links@ == pv.1,
                file_part == pv.0.map_values(|c: SkillFileChange| skill_file_update(c, opt(*bridge_file))),
                changes@.map_values(|x: UpdateFileChange| change_view(x))
                    == file_part + pv.1.take(j as int).map_values(|l: SkillLinkChange| skill_link_update(l)),
            decreases links@.len() - j,
        {
            let l = &links[j];
            let u = UpdateFileChange {
                path: l.path.clone(),
                ownership: UpdateOwnership::Symlink,
                action: if l.create { UpdateFileAction::Create } else { UpdateFileAction::Delete },
                before_sha256: None,
                after_sha256: None,
                diff: Some(concat2("target: ", l.target.as_str())),
            };
            let ghost before = changes@;
            changes.push(u);
            proof {
                assert(change_view(u) == skill_link_update(*l));
                assert(pv.1.take(j + 1) =~= pv.1.take(j as int).push(links@[j as int]));
                assert(changes@.map_values(|x: UpdateFileChange| change_view(x)) =~= before.map_values(
                    |x: UpdateFileChange| change_view(x),
                ).push(change_view(u)));
                assert(pv.1.take(j + 1).map_values(|l: SkillLinkChange| skill_link_update(l))
                    =~= pv.1.take(j as int).map_values(|l: SkillLinkChange| skill_link_update(l)).push(skill_link_update(links@[j as int])));
            }
            j = j + 1;
        }
        proof {
            assert(pv.1.take(links@.len() as int) =~= pv.1);
        }
        UpdateComponentState::Pending
    } else {
        conflict = Some(UpdateConflict {
            component_id: id.clone(),
            path: Some(skills_root.to_owned()),
            reason: concat3("Managed Skill installation is ", state_name_exec(state), "."),
            next_action: "Restore the recorded managed baseline or update this installation through its owning installer.".to_owned(),
        });
        UpdateComponentState::Skipped
    };
    let shown = if outdated { "Outdated" } else { state_name_exec(state) };
    let c = UpdateComponent {
        id,
        kind: UpdateComponentKind::ManagedSkill,
        state: component_state,
        vault_id: match scope {
            SkillScope::Vault => Some(vault_id.to_owned()),
            SkillScope::User => None,
        },
        host: Some(host),
        skill_scope: Some(scope),
        from_version: None,
        to_version: Some(target_version.to_owned()),
        changes,
        message: concat3("Managed Skill installation is ", shown, "."),
    };
    proof {
        let spec = spec_skill_component(scope, host, host_name@, vault_id@, opt(*bridge_file), state, outdated, skills_root@, pv, target_version@);
        if state == SkillInstallState::Current && !outdated {
            assert(c.changes@.map_values(|x: UpdateFileChange| change_view(x)) =~= Seq::<FileChangeView>::empty());
        } else if !outdated {
            assert(c.changes@.map_values(|x: UpdateFileChange| change_view(x)) =~= Seq::<FileChangeView>::empty());
        }
        assert(component_view(c).changes == spec.0.changes);
        assert(component_view(c).message == spec.0.message);
        assert(component_view(c).vault_id == spec.0.vault_id);
        assert(component_view(c) == spec.0);
    }
    (c, conflict)
}

/// The environment keys a target planner may be handed.
pub open spec fn target_environment_keys() -> Seq<Seq<char>> {
    seq![
        "KB_SEARCH_MODE"@,
        "KB_LIMITS_MAX_FILE_BYTES"@,
        "KB_LIMITS_MAX_FILES_PER_REVIEW"@,
        "KB_LIMITS_MAX_TOTAL_READ_BYTES"@,
        "KB_FILES_INCLUDE_HIDDEN"@,
        "KB_OPERATIONS_PLAN_RETENTION_HOURS"@,
    ]
}

fn is_target_key(key: &str) -> (b: bool)
    ensures
        b == target_environment_keys().contains(key@),
{
    let keys = [
        "KB_SEARCH_MODE",
        "KB_LIMITS_MAX_FILE_BYTES",
        "KB_LIMITS_MAX_FILES_PER_REVIEW",
        "KB_LIMITS_MAX_TOTAL_READ_BYTES",
        "KB_FILES_INCLUDE_HIDDEN",
        "KB_OPERATIONS_PLAN_RETENTION_HOURS",
    ];
    let k = chars_of(key);
    let mut i: usize = 0;
    while i < 6
        invariant
            i <= 6,
            k@ == key@,
            keys@ == seq![
                "KB_SEARCH_MODE",
                "KB_LIMITS_MAX_FILE_BYTES",
                "KB_LIMITS_MAX_FILES_PER_REVIEW",
                "KB_LIMITS_MAX_TOTAL_READ_BYTES",
                "KB_FILES_INCLUDE_HIDDEN",
                "KB_OPERATIONS_PLAN_RETENTION_HOURS",
            ],
            forall|j: int| 0 <= j < i ==> target_environment_keys()[j] != key@,
        decreases 6 - i,
    {
        if equal_chars(chars_of(keys[i]).as_slice(), k.as_slice()) {
            proof {
                assert(target_environment_keys()[i as int] == key@);
            }
            return true;
        }
        i = i + 1;
    }
    proof {
        if target_environment_keys().contains(key@) {
            let j = choose|j: int| 0 <= j < 6 && target_environment_keys()[j] == key@;
        }
    }
    false
}

/// What a target plan request needs: every environment key is one the
/// planner accepts (else the configuration is invalid), and the requested
/// release is this planner's (else the staged executable does not verify).
pub fn check_target_request(environment_keys: &Vec<String>, target_version: &str, planner_version: &str) -> (r: Result<(), KbError>)
    ensures
        r is Ok <==> (forall|k: int| 0 <= k < environment_keys@.len() ==> target_environment_keys().contains(
            #[trigger] environment_keys@[k]@,
        )) && target_version@ == planner_version@,
        r matches Err(e) ==> if exists|k: int| 0 <= k < environment_keys@.len() && !target_environment_keys().contains(
            #[trigger] environment_keys@[k]@,
        ) {
            e.code == ErrorCode::InvalidConfig && e.message@ == crate::error::config_message(
                "target update request"@,
                "environment contains an unsupported key"@,
            )
        } else {
            e.code == ErrorCode::UpdateVerificationFailed
                && e.message@ == "The target planner version does not match the requested release."@
                && e.remediation@ == "Discard the staged executable and prepare the update again."@
        },
{
    let mut i: usize = 0;
    while i < environment_keys.len()
        invariant
            i <= environment_keys@.len(),
            forall|k: int| 0 <= k < i ==> target_environment_keys().contains(#[trigger] environment_keys@[k]@),
        decreases environment_keys@.len() - i,
    {
        if !is_target_key(environment_keys[i].as_str()) {
            return Err(KbError::invalid_config("target update request", "environment contains an unsupported key"));
        }
        i = i + 1;
    }
    if !equal_chars(chars_of(target_version).as_slice(), chars_of(planner_version).as_slice()) {
        return Err(KbError::new(
            ErrorCode::UpdateVerificationFailed,
            "The target planner version does not match the requested release.",
            false,
            "Discard the staged executable and prepare the update again.",
        ));
    }
    Ok(())
}

/// The executable's component: skipped when a package manager, Cargo or a
/// source build owns it; unchanged when the target has its digest; else
/// pending, replacing it.
pub open spec fn spec_executable_component(
    managed: bool,
    path: Seq<char>,
    before_sha256: Option<Seq<char>>,
    after_sha256: Option<Seq<char>>,
    current_version: Seq<char>,
    target_version: Seq<char>,
) -> ComponentView {
    let (state, changes, message) = if !managed {
        (UpdateComponentState::Skipped, Seq::<FileChangeView>::empty(), "The executable is owned by a package manager, Cargo, or a source build."@)
    } else if before_sha256 == after_sha256 {
        (UpdateComponentState::Unchanged, Seq::<FileChangeView>::empty(), "The official executable is current."@)
    } else {
        (
            UpdateComponentState::Pending,
            seq![FileChangeView {
                path,
                ownership: UpdateOwnership::Executable,
                action: UpdateFileAction::Replace,
                before_sha256,
                after_sha256,
                diff: None,
            }],
            "Replace the official executable with the verified target release."@,
        )
    };
    ComponentView {
        id: "executable"@,
        kind: UpdateComponentKind::Executable,
        state,
        vault_id: None,
        host: None,
        skill_scope: None,
        from_version: Some(current_version),
        to_version: Some(target_version),
        changes,
        message,
    }
}

fn copy_opt(o: &Option<String>) -> (r: Option<String>)
    ensures
        opt(r) == opt(*o),
{
    match o {
        Some(s) => Some(s.clone()),
        None => None,
    }
}

fn same_opt(a: &Option<String>, b: &Option<String>) -> (r: bool)
    ensures
        r == (opt(*a) == opt(*b)),
{
    match (a, b) {
        (Some(x), Some(y)) => equal_chars(chars_of(x.as_str()).as_slice(), chars_of(y.as_str()).as_slice()),
        (None, None) => true,
        _ => false,
    }
}

/// The executable's component (see `spec_executable_component`).
pub fn executable_component(
    managed: bool,
    path: &str,
    before_sha256: &Option<String>,
    after_sha256: &Option<String>,
    current_version: &str,
    target_version: &str,
) -> (c: UpdateComponent)
    ensures
        component_view(c) == spec_executable_component(
            managed,
            path@,
            opt(*before_sha256),
            opt(*after_sha256),
            current_version@,
            target_version@,
        ),
{
    let mut changes: Vec<UpdateFileChange> = Vec::new();
    let state;
    let message;
    if !managed {
        state = UpdateComponentState::Skipped;
        message = "The executable is owned by a package manager, Cargo, or a source build.".to_owned();
    } else if same_opt(before_sha256, after_sha256) {
        state = UpdateComponentState::Unchanged;
        message = "The official executable is current.".to_owned();
    } else {
        state = UpdateComponentState::Pending;
        let change = UpdateFileChange {
            path: path.to_owned(),
            ownership: UpdateOwnership::Executable,
            action: UpdateFileAction::Replace,
            before_sha256: copy_opt(before_sha256),
            after_sha256: copy_opt(after_sha256),
            diff: None,
        };
        changes.push(change);
        message = "Replace the official executable with the verified target release.".to_owned();
    }
    let c = UpdateComponent {
        id: "executable".to_owned(),
        kind: UpdateComponentKind::Executable,
        state,
        vault_id: None,
        host: None,
        skill_scope: None,
        from_version: Some(current_version.to_owned()),
        to_version: Some(target_version.to_owned()),
        changes,
        message,
    };
    proof {
        assert(component_view(c).changes =~= spec_executable_component(
            managed,
            path@,
            opt(*before_sha256),
            opt(*after_sha256),
            current_version@,
            target_version@,
        ).changes);
    }
    c
}

/// Whether an update plan needs review: some component is pending or must
/// be rebuilt.
pub open spec fn needs_review(components: Seq<ComponentView>) -> bool {
    exists|k: int| 0 <= k < components.len() && (
        (#[trigger] components[k]).state == UpdateComponentState::Pending
            || components[k].state == UpdateComponentState::RebuildRequired)
}

/// Whether the components of a plan need review (see `needs_review`).
pub fn plan_needs_review(components: &Vec<UpdateComponent>) -> (b: bool)
    ensures
        b == needs_review(components@.map_values(|c: UpdateComponent| component_view(c))),
{
    let ghost cv = components@.map_values(|c: UpdateComponent| component_view(c));
    let mut i: usize = 0;
    while i < components.len()
        invariant
            i <= components@.len(),
            cv == components@.map_values(|c: UpdateComponent| component_view(c)),
            forall|k: int| 0 <= k < i ==> (#[trigger] cv[k]).state != UpdateComponentState::Pending
                && cv[k].state != UpdateComponentState::RebuildRequired,
        decreases components@.len() - i,
    {
        if components[i].state == UpdateComponentState::Pending || components[i].state == UpdateComponentState::RebuildRequired {
            proof {
                assert(cv[i as int].state == components@[i as int].state);
            }
            return true;
        }
        proof {
            assert(cv[i as int].state == components@[i as int].state);
        }
        i = i + 1;
    }
    false
}

/// Where an id goes among ids in order: after every one not after it.
pub open spec fn id_slot(s: Seq<Seq<char>>, x: Seq<char>) -> int
    decreases s.len(),
{
    if s.len() == 0 {
        0
    } else if crate::sync::chars_lt(x, s[0]) {
        0
    } else {
        1 + id_slot(s.drop_first(), x)
    }
}

/// Components in order of their ids, keeping the order of equal ids.
pub open spec fn components_by_id(s: Seq<ComponentView>) -> Seq<ComponentView>
    decreases s.len(),
{
    if s.len() == 0 {
        s
    } else {
        let r = components_by_id(s.drop_last());
        r.insert(id_slot(r.map_values(|c: ComponentView| c.id), s.last().id), s.last())
    }
}

/// The distinct texts of `s`, in order.
pub open spec fn sorted_distinct(s: Seq<Seq<char>>) -> Seq<Seq<char>>
    decreases s.len(),
{
    if s.len() == 0 {
        s
    } else {
        let r = sorted_distinct(s.drop_last());
        if r.contains(s.last()) { r } else { r.insert(id_slot(r, s.last()), s.last()) }
    }
}

pub open spec fn component_views(v: Seq<UpdateComponent>) -> Seq<ComponentView> {
    v.map_values(|c: UpdateComponent| component_view(c))
}

fn slot_exec(ids: &Vec<Vec<char>>, x: &[char]) -> (k: usize)
    ensures
        k == id_slot(ids@.map_values(|v: Vec<char>| v@), x@),
        k <= ids@.len(),
{
    let ghost v = ids@.map_values(|w: Vec<char>| w@);
    let mut k: usize = 0;
    proof {
        assert(v.skip(0) =~= v);
    }
    while k < ids.len()
        invariant
            k <= ids@.len(),
            v == ids@.map_values(|w: Vec<char>| w@),
            id_slot(v, x@) == k + id_slot(v.skip(k as int), x@),
        decreases ids@.len() - k,
    {
        proof {
            assert(v.skip(k as int)[0] == v[k as int]);
            assert(v.skip(k as int).drop_first() =~= v.skip(k + 1));
        }
        if crate::search::chars_less(x, ids[k].as_slice()) {
            return k;
        }
        k = k + 1;
    }
    k
}

/// Order components by id (see `components_by_id`).
pub fn sort_components(components: Vec<UpdateComponent>) -> (out: Vec<UpdateComponent>)
    ensures
        component_views(out@) == components_by_id(component_views(components@)),
{
    let ghost cv = component_views(components@);
    let ghost input = components@;
    let mut rest = components;
    let mut out: Vec<UpdateComponent> = Vec::new();
    let mut ids: Vec<Vec<char>> = Vec::new();
    let mut i: usize = 0;
    let n = rest.len();
    proof {
        assert(cv.take(0) =~= Seq::<ComponentView>::empty());
        assert(component_views(out@) =~= Seq::<ComponentView>::empty());
        assert(ids@.map_values(|w: Vec<char>| w@) =~= component_views(out@).map_values(|c: ComponentView| c.id));
    }
    while rest.len() > 0
        invariant
            i + rest@.len() == n,
            n == input.len(),
            cv == component_views(input),
            forall|k: int| 0 <= k < rest@.len() ==> rest@[k] == input[i + k],
            component_views(out@) == components_by_id(cv.take(i as int)),
            ids@.map_values(|w: Vec<char>| w@) == component_views(out@).map_values(|c: ComponentView| c.id),
        decreases rest@.len(),
    {
        let ghost old_rest = rest@;
        let x = rest.remove(0);
        proof {
            assert(x == input[i as int]);
            assert forall|k: int| 0 <= k < rest@.len() implies rest@[k] == input[i + 1 + k] by {
                assert(rest@[k] == old_rest[k + 1]);
            }
        }
        let xid = chars_of(x.id.as_str());
        let slot = slot_exec(&ids, xid.as_slice());
        assert(ids@.map_values(|w: Vec<char>| w@).len() == out@.len());
        let ghost before = out@;
        let ghost before_ids = ids@;
        out.insert(slot, x);
        ids.insert(slot, xid);
        proof {
            assert(cv.take(i + 1).drop_last() =~= cv.take(i as int));
            assert(cv.take(i + 1).last() == component_view(x));
            assert(component_views(out@) =~= component_views(before).insert(slot as int, component_view(x)));
            let l = ids@.map_values(|w: Vec<char>| w@);
            let r = component_views(out@).map_values(|c: ComponentView| c.id);
            assert(xid@ == component_view(x).id);
            assert(before_ids.map_values(|w: Vec<char>| w@) == component_views(before).map_values(|c: ComponentView| c.id));
            assert forall|k: int| 0 <= k < l.len() implies l[k] == r[k] by {
                if k < slot {
                    assert(ids@[k] == before_ids[k]);
                    assert(out@[k] == before[k]);
                    assert(before_ids.map_values(|w: Vec<char>| w@)[k] == component_views(before).map_values(|c: ComponentView| c.id)[k]);
                } else if k > slot {
                    assert(ids@[k] == before_ids[k - 1]);
                    assert(out@[k] == before[k - 1]);
                    assert(before_ids.map_values(|w: Vec<char>| w@)[k - 1] == component_views(before).map_values(|c: ComponentView| c.id)[k - 1]);
                }
            }
            assert(l =~= r);
        }
        i = i + 1;
    }
    proof {
        assert(cv.take(n as int) =~= cv);
    }
    out
}

/// The distinct skipped notes in order (see `sorted_distinct`).
pub fn sort_skipped(skipped: &Vec<String>) -> (out: Vec<String>)
    ensures
        views(out@) == sorted_distinct(views(skipped@)),
{
    let ghost sv = views(skipped@);
    let mut out: Vec<String> = Vec::new();
    let mut keys: Vec<Vec<char>> = Vec::new();
    let mut i: usize = 0;
    proof {
        assert(sv.take(0) =~= Seq::<Seq<char>>::empty());
        assert(views(out@) =~= Seq::<Seq<char>>::empty());
        assert(keys@.map_values(|w: Vec<char>| w@) =~= views(out@));
    }
    while i < skipped.len()
        invariant
            i <= skipped@.len(),
            sv == views(skipped@),
            views(out@) == sorted_distinct(sv.take(i as int)),
            keys@.map_values(|w: Vec<char>| w@) == views(out@),
        decreases skipped@.len() - i,
    {
        proof {
            assert(sv.take(i + 1).drop_last() =~= sv.take(i as int));
            assert(sv.take(i + 1).last() == skipped@[i as int]@);
        }
        let x = chars_of(skipped[i].as_str());
        let mut present = false;
        let mut j: usize = 0;
        while j < keys.len()
            invariant
                j <= keys@.len(),
                x@ == skipped@[i as int]@,
                present <==> exists|k: int| 0 <= k < j && keys@[k]@ == x@,
            decreases keys@.len() - j,
        {
            if equal_chars(keys[j].as_slice(), x.as_slice()) {
                present = true;
            }
            j = j + 1;
        }
        proof {
            let kv = keys@.map_values(|w: Vec<char>| w@);
            if present {
                let k = choose|k: int| 0 <= k < keys@.len() && keys@[k]@ == x@;
                assert(kv[k] == x@);
            } else {
                assert forall|k: int| 0 <= k < kv.len() implies kv[k] != x@ by {
                    assert(kv[k] == keys@[k]@);
                }
            }
        }
        if !present {
            let slot = slot_exec(&keys, x.as_slice());
            assert(keys@.map_values(|w: Vec<char>| w@).len() == out@.len());
            let ghost before = out@;
            out.insert(slot, skipped[i].clone());
            keys.insert(slot, x);
            proof {
                assert(views(out@) =~= views(before).insert(slot as int, skipped@[i as int]@));
                assert(keys@.map_values(|w: Vec<char>| w@) =~= views(out@));
            }
        }
        i = i + 1;
    }
    proof {
        assert(sv.take(skipped@.len() as int) =~= sv);
    }
    out
}

} // verus!
