//! Creating a Vault: where it may be created.
use vstd::prelude::*;
use crate::error::{ErrorCode, KbError};
use crate::text::{append_chars, chars_of, string_of};

verus! {

/// A request to create a Vault at a path.
#[derive(Debug, Clone)]
pub struct InitRequest {
    pub target: String,
}

/// What is at an initialization target.
pub enum TargetState {
    Missing,
    NotDirectory,
    EmptyDirectory,
    NonEmptyDirectory,
}

/// How a Vault is created at the target.
#[derive(Debug, Clone, Copy, PartialEq, Eq, Structural)]
pub enum InitMode {
    /// Staged beside the target and moved into place.
    New,
    /// Staged inside the empty directory and its entries moved up.
    IntoEmpty,
}

/// Whether and how a Vault may be created at the target: a missing path or
/// an empty directory can take one; anything else is refused and left as it is.
pub fn init_mode(target: &str, state: TargetState) -> (r: Result<InitMode, KbError>)
    ensures
        match state {
            TargetState::Missing => r == Ok::<InitMode, KbError>(InitMode::New),
            TargetState::EmptyDirectory => r == Ok::<InitMode, KbError>(InitMode::IntoEmpty),
            TargetState::NotDirectory => r matches Err(e) && e.code == ErrorCode::TargetNotEmpty
                && e.message@ == "Initialization target is not a directory: "@ + target@,
            TargetState::NonEmptyDirectory => r matches Err(e) && e.code == ErrorCode::TargetNotEmpty
                && e.message@ == "Initialization target is not empty: "@ + target@,
        },
{
    match state {
        TargetState::Missing => Ok(InitMode::New),
        TargetState::EmptyDirectory => Ok(InitMode::IntoEmpty),
        TargetState::NotDirectory => {
            let mut m = chars_of("Initialization target is not a directory: ");
            append_chars(&mut m, chars_of(target).as_slice());
            Err(KbError {
                code: ErrorCode::TargetNotEmpty,
                message: string_of(m.as_slice()),
                retryable: false,
                remediation: "Choose a nonexistent or empty directory.".to_owned(),
                resource_uri: None,
                findings: Vec::new(),
            })
        },
        TargetState::NonEmptyDirectory => {
            let mut m = chars_of("Initialization target is not empty: ");
            append_chars(&mut m, chars_of(target).as_slice());
            Err(KbError {
                code: ErrorCode::TargetNotEmpty,
                message: string_of(m.as_slice()),
                retryable: false,
                remediation: "Choose an empty directory or use kb adopt for existing content.".to_owned(),
                resource_uri: None,
                findings: Vec::new(),
            })
        },
    }
}

} // verus!
