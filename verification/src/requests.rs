//! Application requests for backups and configuration, and how each is run:
//! under which lock, and with which checks first.
use vstd::prelude::*;
use crate::config::ConfigTarget;
use crate::lock::LockMode;

verus! {

/// An edit of the admission list.
#[derive(Debug, Clone)]
pub enum AdmissionAction {
    Add { id: String, path: String },
    Enable { id: String },
    Disable { id: String },
    Remove { id: String },
}

/// A backup request.
#[derive(Debug, Clone)]
pub enum BackupRequest {
    Create { vault: Option<String>, output: Option<String>, without_source_objects: bool },
    Verify { archive: String },
    Restore { archive: String, target: String },
}

/// An admission-list request.
#[derive(Debug, Clone)]
pub enum AdmissionRequest {
    List,
    Change { action: AdmissionAction, write: bool },
}

/// A configuration request.
#[derive(Debug, Clone)]
pub enum ConfigRequest {
    Show { vault: Option<String>, sources: bool },
    Get { vault: Option<String>, key: String },
    SetValue { vault: Option<String>, target: ConfigTarget, key: String, value: String, write: bool },
    Unset { vault: Option<String>, target: ConfigTarget, key: String, write: bool },
    Validate { vault: Option<String> },
    Admission { vault: Option<String>, request: AdmissionRequest },
}

/// How a request is run: the lock it takes under its command name, whether
/// the Vault must allow mutation, and whether pending operations must be
/// finished first.
#[derive(Debug, Clone)]
pub struct RunPlan {
    pub command: String,
    pub lock: LockMode,
    pub check_mutation: bool,
    pub check_pending: bool,
}

pub open spec fn plan_is(p: RunPlan, command: Seq<char>, lock: LockMode, check_mutation: bool, check_pending: bool) -> bool {
    p.command@ == command && p.lock == lock && p.check_mutation == check_mutation && p.check_pending == check_pending
}

fn plan(command: &str, lock: LockMode, check_mutation: bool, check_pending: bool) -> (p: RunPlan)
    ensures
        plan_is(p, command@, lock, check_mutation, check_pending),
{
    RunPlan { command: command.to_owned(), lock, check_mutation, check_pending }
}

/// The lock of a previewing or writing edit.
pub open spec fn edit_lock(write: bool) -> LockMode {
    if write { LockMode::Exclusive } else { LockMode::Shared }
}

/// How an admission request runs: listing reads under a shared lock; a
/// change must be allowed to mutate and locks exclusively when it writes,
/// after pending operations are finished.
pub fn admission_plan(request: &AdmissionRequest) -> (p: RunPlan)
    ensures
        match *request {
            AdmissionRequest::List => plan_is(p, "config admission list"@, LockMode::Shared, false, false),
            AdmissionRequest::Change { write, .. } => plan_is(p, "config admission change"@, edit_lock(write), true, write),
        },
{
    match request {
        AdmissionRequest::List => plan("config admission list", LockMode::Shared, false, false),
        AdmissionRequest::Change { write, .. } => plan(
            "config admission change",
            if *write { LockMode::Exclusive } else { LockMode::Shared },
            true,
            *write,
        ),
    }
}

/// How a configuration request runs: reading requests take a shared lock;
/// setting and unsetting must be allowed to mutate and lock exclusively
/// when they write, after pending operations are finished; admission
/// requests run as `admission_plan` says.
pub fn config_plan(request: &ConfigRequest) -> (p: RunPlan)
    ensures
        match *request {
            ConfigRequest::Show { .. } => plan_is(p, "config show"@, LockMode::Shared, false, false),
            ConfigRequest::Get { .. } => plan_is(p, "config get"@, LockMode::Shared, false, false),
            ConfigRequest::SetValue { write, .. } => plan_is(p, "config set"@, edit_lock(write), true, write),
            ConfigRequest::Unset { write, .. } => plan_is(p, "config unset"@, edit_lock(write), true, write),
            ConfigRequest::Validate { .. } => plan_is(p, "config validate"@, LockMode::Shared, false, false),
            ConfigRequest::Admission { request, .. } => match request {
                AdmissionRequest::List => plan_is(p, "config admission list"@, LockMode::Shared, false, false),
                AdmissionRequest::Change { write, .. } => plan_is(p, "config admission change"@, edit_lock(write), true, write),
            },
        },
{
    match request {
        ConfigRequest::Show { .. } => plan("config show", LockMode::Shared, false, false),
        ConfigRequest::Get { .. } => plan("config get", LockMode::Shared, false, false),
        ConfigRequest::SetValue { write, .. } => plan(
            "config set",
            if *write { LockMode::Exclusive } else { LockMode::Shared },
            true,
            *write,
        ),
        ConfigRequest::Unset { write, .. } => plan(
            "config unset",
            if *write { LockMode::Exclusive } else { LockMode::Shared },
            true,
            *write,
        ),
        ConfigRequest::Validate { .. } => plan("config validate", LockMode::Shared, false, false),
        ConfigRequest::Admission { request, .. } => admission_plan(request),
    }
}

/// A writing request never runs under a shared lock, and it always finishes
/// pending operations first.
pub proof fn writes_are_exclusive(request: ConfigRequest, p: RunPlan)
    requires
        match request {
            ConfigRequest::Show { .. } => plan_is(p, "config show"@, LockMode::Shared, false, false),
            ConfigRequest::Get { .. } => plan_is(p, "config get"@, LockMode::Shared, false, false),
            ConfigRequest::SetValue { write, .. } => plan_is(p, "config set"@, edit_lock(write), true, write),
            ConfigRequest::Unset { write, .. } => plan_is(p, "config unset"@, edit_lock(write), true, write),
            ConfigRequest::Validate { .. } => plan_is(p, "config validate"@, LockMode::Shared, false, false),
            ConfigRequest::Admission { request, .. } => match request {
                AdmissionRequest::List => plan_is(p, "config admission list"@, LockMode::Shared, false, false),
                AdmissionRequest::Change { write, .. } => plan_is(p, "config admission change"@, edit_lock(write), true, write),
            },
        },
    ensures
        p.lock == LockMode::Exclusive <==> p.check_pending,
        p.check_pending ==> p.check_mutation,
{
}

/// A path given relative to the working directory, made absolute.
pub fn resolve_context_path(current_dir: &str, path: &str, path_is_absolute: bool) -> (r: String)
    ensures
        r@ == if path_is_absolute { path@ } else { crate::user_dirs::join_path(current_dir@, path@) },
{
    if path_is_absolute {
        path.to_owned()
    } else {
        crate::user_dirs::join(current_dir, path)
    }
}

} // verus!
