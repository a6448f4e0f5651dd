//! Vault locks: the two modes, and the error for a lock that is held.
use vstd::prelude::*;
use crate::error::{ErrorCode, KbError};
use crate::text::{append_chars, chars_of, string_of};

verus! {

/// How a command holds the Vault lock.
#[derive(Debug, Clone, Copy, PartialEq, Eq, Structural)]
pub enum LockMode {
    Shared,
    Exclusive,
}

/// Only an exclusive holder records who holds the lock.
pub fn records_holder(mode: LockMode) -> (b: bool)
    ensures
        b == (mode == LockMode::Exclusive),
{
    matches!(mode, LockMode::Exclusive)
}

/// The error for a Vault whose lock another command holds; retrying may help.
pub fn lock_busy(reason: &str) -> (e: KbError)
    ensures
        e.code == ErrorCode::WriteBusy,
        e.retryable,
        e.message@ == "Vault is busy: "@ + reason@,
        e.remediation@ == "Wait for the reported command to finish, then retry."@,
{
    let mut m = chars_of("Vault is busy: ");
    append_chars(&mut m, chars_of(reason).as_slice());
    KbError {
        code: ErrorCode::WriteBusy,
        message: string_of(m.as_slice()),
        retryable: true,
        remediation: "Wait for the reported command to finish, then retry.".to_owned(),
        resource_uri: None,
        findings: Vec::new(),
    }
}

} // verus!
