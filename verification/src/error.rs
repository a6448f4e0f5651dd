//! The library's error value.
use vstd::prelude::*;

verus! {

/// What kind of failure an error reports.
#[derive(Debug, Clone, Copy, PartialEq, Eq, Structural)]
pub enum ErrorCode {
    InvalidConfig,
    IoFailure,
    LimitExceeded,
    UnsafePath,
    SyncConflict,
    WriteBusy,
    CapabilityUnavailable,
    VaultNotFound,
    SourceIntegrityFailed,
    TargetNotEmpty,
    ResourceNotFound,
    ResourceNotReadable,
    ResourceOutOfScope,
    ResourceCursorStale,
    VaultNeedsRecovery,
    BackupVerificationFailed,
    UpdateVerificationFailed,
    AuthDenied,
    PlanStale,
    IndexStale,
}

/// A failure with its message, whether retrying may help, what to do next,
/// the resource it concerns and the synchronization findings it reports.
#[derive(Debug, Clone)]
pub struct KbError {
    pub code: ErrorCode,
    pub message: String,
    pub retryable: bool,
    pub remediation: String,
    /// The resource the error is about, where there is one.
    pub resource_uri: Option<String>,
    /// The synchronization findings the error reports (none for other errors).
    pub findings: Vec<crate::sync::SyncFinding>,
}

/// The message of an invalid-configuration error: the subject, a colon, the detail.
pub open spec fn config_message(subject: Seq<char>, detail: Seq<char>) -> Seq<char> {
    subject + ": "@ + detail
}

impl KbError {
    /// An error from its parts.
    pub fn new(code: ErrorCode, message: &str, retryable: bool, remediation: &str) -> (e: KbError)
        ensures
            e.code == code,
            e.message@ == message@,
            e.retryable == retryable,
            e.remediation@ == remediation@,
            e.resource_uri is None,
            e.findings@.len() == 0,
    {
        KbError {
            code,
            message: message.to_owned(),
            retryable,
            remediation: remediation.to_owned(),
            resource_uri: None,
            findings: Vec::new(),
        }
    }

    /// An invalid configuration value, named by `subject`.
    pub fn invalid_config(subject: &str, detail: &str) -> (e: KbError)
        ensures
            e.code == ErrorCode::InvalidConfig,
            !e.retryable,
            e.message@ == config_message(subject@, detail@),
            e.remediation@ == "Correct the reported configuration value."@,
            e.resource_uri is None,
    {
        let mut m = crate::text::chars_of(subject);
        crate::text::append_chars(&mut m, crate::text::chars_of(": ").as_slice());
        crate::text::append_chars(&mut m, crate::text::chars_of(detail).as_slice());
        KbError {
            code: ErrorCode::InvalidConfig,
            message: crate::text::string_of(m.as_slice()),
            retryable: false,
            remediation: "Correct the reported configuration value.".to_owned(),
            resource_uri: None,
            findings: Vec::new(),
        }
    }
}

} // verus!
