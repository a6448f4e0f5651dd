//! Durable update operations: where they are kept and which state changes are legal.
use vstd::prelude::*;
use crate::error::{ErrorCode, KbError};
use crate::text::{append_chars, chars_of, string_of};
use crate::user_dirs::{join, join_path, UserPaths};

verus! {

/// Where update operations are kept.
#[derive(Debug, Clone)]
pub struct UpdateStore {
    root: String,
}

impl UpdateStore {
    pub closed spec fn root_view(&self) -> Seq<char> {
        self.root@
    }

    /// The store under the user state directory: `updates` there.
    pub fn new(user_paths: &UserPaths) -> (s: UpdateStore)
        ensures
            s.root_view() == join_path(user_paths.state_dir@, "updates"@),
    {
        UpdateStore { root: join(user_paths.state_dir.as_str(), "updates") }
    }

    /// The store's root directory.
    pub fn root(&self) -> (r: String)
        ensures
            r@ == self.root_view(),
    {
        self.root.clone()
    }

    /// The directory of one operation: its id under the root.
    pub fn operation_directory(&self, operation_id: &str) -> (r: String)
        ensures
            r@ == join_path(self.root_view(), operation_id@),
    {
        join(self.root.as_str(), operation_id)
    }
}

/// Where an update operation stands.
#[derive(Debug, Clone, Copy, PartialEq, Eq, Structural)]
pub enum UpdateExecutionState {
    Preview,
    Confirmed,
    ReplacingCli,
    CliReplaced,
    ApplyingComponents,
    Completed,
    CompletedWithSkips,
    Partial,
    Failed,
}

/// The coarse phase of an update operation.
#[derive(Debug, Clone, Copy, PartialEq, Eq, Structural)]
pub enum UpdatePhase {
    Preview,
    Confirmed,
    Running,
    Applied,
}

/// The states that end an operation.
pub open spec fn terminal(s: UpdateExecutionState) -> bool {
    matches!(s, UpdateExecutionState::Completed | UpdateExecutionState::CompletedWithSkips
        | UpdateExecutionState::Partial | UpdateExecutionState::Failed)
}

pub open spec fn phase_of(s: UpdateExecutionState) -> UpdatePhase {
    match s {
        UpdateExecutionState::Preview => UpdatePhase::Preview,
        UpdateExecutionState::Confirmed => UpdatePhase::Confirmed,
        UpdateExecutionState::ReplacingCli | UpdateExecutionState::CliReplaced
        | UpdateExecutionState::ApplyingComponents => UpdatePhase::Running,
        _ => UpdatePhase::Applied,
    }
}

pub open spec fn phase_rank(p: UpdatePhase) -> nat {
    match p {
        UpdatePhase::Preview => 0,
        UpdatePhase::Confirmed => 1,
        UpdatePhase::Running => 2,
        UpdatePhase::Applied => 3,
    }
}

/// The state changes an update may make after confirmation.
pub open spec fn legal(current: UpdateExecutionState, next: UpdateExecutionState) -> bool {
    match current {
        UpdateExecutionState::Confirmed => matches!(next, UpdateExecutionState::ReplacingCli
            | UpdateExecutionState::ApplyingComponents | UpdateExecutionState::Failed),
        UpdateExecutionState::ReplacingCli => matches!(next, UpdateExecutionState::CliReplaced
            | UpdateExecutionState::Failed),
        UpdateExecutionState::CliReplaced => matches!(next, UpdateExecutionState::ApplyingComponents
            | UpdateExecutionState::Failed),
        UpdateExecutionState::ApplyingComponents => matches!(next, UpdateExecutionState::Completed
            | UpdateExecutionState::CompletedWithSkips | UpdateExecutionState::Partial
            | UpdateExecutionState::Failed),
        _ => false,
    }
}

/// The name of each execution state.
pub open spec fn state_name(s: UpdateExecutionState) -> Seq<char> {
    match s {
        UpdateExecutionState::Preview => "Preview"@,
        UpdateExecutionState::Confirmed => "Confirmed"@,
        UpdateExecutionState::ReplacingCli => "ReplacingCli"@,
        UpdateExecutionState::CliReplaced => "CliReplaced"@,
        UpdateExecutionState::ApplyingComponents => "ApplyingComponents"@,
        UpdateExecutionState::Completed => "Completed"@,
        UpdateExecutionState::CompletedWithSkips => "CompletedWithSkips"@,
        UpdateExecutionState::Partial => "Partial"@,
        UpdateExecutionState::Failed => "Failed"@,
    }
}

impl UpdateExecutionState {
    pub fn is_terminal(&self) -> (b: bool)
        ensures
            b == terminal(*self),
    {
        matches!(self, UpdateExecutionState::Completed | UpdateExecutionState::CompletedWithSkips
            | UpdateExecutionState::Partial | UpdateExecutionState::Failed)
    }

    pub fn phase(&self) -> (p: UpdatePhase)
        ensures
            p == phase_of(*self),
    {
        match self {
            UpdateExecutionState::Preview => UpdatePhase::Preview,
            UpdateExecutionState::Confirmed => UpdatePhase::Confirmed,
            UpdateExecutionState::ReplacingCli | UpdateExecutionState::CliReplaced
            | UpdateExecutionState::ApplyingComponents => UpdatePhase::Running,
            _ => UpdatePhase::Applied,
        }
    }

    /// The variant's name.
    pub fn name(&self) -> (n: &'static str)
        ensures
            n@ == state_name(*self),
    {
        match self {
            UpdateExecutionState::Preview => "Preview",
            UpdateExecutionState::Confirmed => "Confirmed",
            UpdateExecutionState::ReplacingCli => "ReplacingCli",
            UpdateExecutionState::CliReplaced => "CliReplaced",
            UpdateExecutionState::ApplyingComponents => "ApplyingComponents",
            UpdateExecutionState::Completed => "Completed",
            UpdateExecutionState::CompletedWithSkips => "CompletedWithSkips",
            UpdateExecutionState::Partial => "Partial",
            UpdateExecutionState::Failed => "Failed",
        }
    }
}

/// Whether an update may move from one state to the other.
pub fn legal_transition(current: UpdateExecutionState, next: UpdateExecutionState) -> (b: bool)
    ensures
        b == legal(current, next),
{
    match current {
        UpdateExecutionState::Confirmed => matches!(next, UpdateExecutionState::ReplacingCli
            | UpdateExecutionState::ApplyingComponents | UpdateExecutionState::Failed),
        UpdateExecutionState::ReplacingCli => matches!(next, UpdateExecutionState::CliReplaced
            | UpdateExecutionState::Failed),
        UpdateExecutionState::CliReplaced => matches!(next, UpdateExecutionState::ApplyingComponents
            | UpdateExecutionState::Failed),
        UpdateExecutionState::ApplyingComponents => matches!(next, UpdateExecutionState::Completed
            | UpdateExecutionState::CompletedWithSkips | UpdateExecutionState::Partial
            | UpdateExecutionState::Failed),
        _ => false,
    }
}

/// The recorded state of an operation after a change.
#[derive(Debug, Clone)]
pub struct StateChange {
    pub execution_state: UpdateExecutionState,
    pub phase: UpdatePhase,
    pub updated_at: String,
    pub completed_at: Option<String>,
}

/// Move an operation from `current` to `next` at time `now`: refused unless the
/// change is legal; the phase follows the state, and a terminal state records
/// its completion time.
pub fn transition(current: UpdateExecutionState, next: UpdateExecutionState, now: &str) -> (r: Result<StateChange, KbError>)
    ensures
        r is Ok <==> legal(current, next),
        r matches Ok(c) ==> {
            &&& c.execution_state == next
            &&& c.phase == phase_of(next)
            &&& c.updated_at@ == now@
            &&& match c.completed_at {
                Some(t) => terminal(next) && t@ == now@,
                None => !terminal(next),
            }
        },
        r matches Err(e) ==> e.code == ErrorCode::InvalidConfig && !e.retryable,
{
    if !legal_transition(current, next) {
        let mut m = chars_of("Invalid update state transition from ");
        append_chars(&mut m, chars_of(current.name()).as_slice());
        append_chars(&mut m, chars_of(" to ").as_slice());
        append_chars(&mut m, chars_of(next.name()).as_slice());
        append_chars(&mut m, chars_of(".").as_slice());
        return Err(KbError {
            code: ErrorCode::InvalidConfig,
            message: string_of(m.as_slice()),
            retryable: false,
            remediation: "Inspect the durable update status before retrying.".to_owned(),
            resource_uri: None,
            findings: Vec::new(),
        });
    }
    Ok(StateChange {
        execution_state: next,
        phase: next.phase(),
        updated_at: now.to_owned(),
        completed_at: if next.is_terminal() { Some(now.to_owned()) } else { None },
    })
}

/// A finished operation never changes state again, a preview is never returned
/// to, and the phase never moves backwards.
pub proof fn transitions_move_forward(current: UpdateExecutionState, next: UpdateExecutionState)
    ensures
        terminal(current) ==> !legal(current, next),
        legal(current, next) ==> next != UpdateExecutionState::Preview && next != UpdateExecutionState::Confirmed,
        legal(current, next) ==> phase_rank(phase_of(current)) <= phase_rank(phase_of(next)),
        legal(current, next) ==> current != next,
{
}

/// The verified update stage attached to an operation.
#[derive(Debug, Clone)]
pub struct StoredUpdateStage {
    pub version: String,
    pub target: String,
    pub executable_relative: String,
    pub executable_sha256: String,
    pub archive_sha256: String,
}

impl StoredUpdateStage {
    /// The stage record of a verified release: its executable lies at
    /// `stage/verified/<name>` inside the stage.
    pub fn new(version: String, target: String, executable_name: &str, executable_sha256: String, archive_sha256: String) -> (s: StoredUpdateStage)
        ensures
            s.version == version,
            s.target == target,
            s.executable_relative@ == join_path(join_path("stage"@, "verified"@), executable_name@),
            s.executable_sha256 == executable_sha256,
            s.archive_sha256 == archive_sha256,
    {
        let dir = join("stage", "verified");
        StoredUpdateStage {
            version,
            target,
            executable_relative: join(dir.as_str(), executable_name),
            executable_sha256,
            archive_sha256,
        }
    }
}

} // verus!
