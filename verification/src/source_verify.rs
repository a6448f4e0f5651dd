//! Verification of captured source objects against their recorded digests.
use vstd::prelude::*;
use crate::doctor::CheckStatus;
use crate::error::{ErrorCode, KbError};
use crate::source_io::{hash, hex_chars, sha256_digest};
use crate::text::{append_chars, chars_of, string_of};

verus! {

/// The result of checking one object.
#[derive(Debug, Clone)]
pub struct VerificationItem {
    pub path: String,
    pub status: CheckStatus,
    pub message: String,
}

/// The results of checking every object once.
#[derive(Debug, Clone)]
pub struct Verification {
    pub checks: Vec<VerificationItem>,
}

/// The error for an object whose bytes do not match its record.
pub fn integrity(path: &str) -> (e: KbError)
    ensures
        e.code == ErrorCode::SourceIntegrityFailed,
        e.message@ == "Source object hash mismatch: "@ + path@,
{
    let mut m = chars_of("Source object hash mismatch: ");
    append_chars(&mut m, chars_of(path).as_slice());
    KbError {
        code: ErrorCode::SourceIntegrityFailed,
        message: string_of(m.as_slice()),
        retryable: false,
        remediation: "Restore the original object from a verified backup.".to_owned(),
        resource_uri: None,
        findings: Vec::new(),
    }
}

/// The check of one object, given the outcome of reading it and the digest on
/// record: it passes when the bytes' digest matches, fails on a mismatch or a
/// read error, and is not checked when a read limit stopped it.
pub open spec fn item_outcome(path: Seq<char>, read: Result<Seq<u8>, (ErrorCode, Seq<char>)>, expected: Seq<char>) -> (CheckStatus, Seq<char>) {
    match read {
        Ok(bytes) => if hex_chars(sha256_digest(bytes)) == expected {
            (CheckStatus::Pass, "Original object matches SHA-256."@)
        } else {
            (CheckStatus::Fail, "Source object hash mismatch: "@ + path)
        },
        Err((code, message)) => if code == ErrorCode::LimitExceeded {
            (CheckStatus::NotChecked, message)
        } else {
            (CheckStatus::Fail, message)
        },
    }
}

pub open spec fn read_view(r: Result<Vec<u8>, KbError>) -> Result<Seq<u8>, (ErrorCode, Seq<char>)> {
    match r {
        Ok(b) => Ok(b@),
        Err(e) => Err((e.code, e.message@)),
    }
}

/// The check of one object (see `item_outcome`).
pub fn verification_item(path: &str, read: Result<Vec<u8>, KbError>, expected_sha256: &str) -> (item: VerificationItem)
    ensures
        item.path@ == path@,
        (item.status, item.message@) == item_outcome(path@, read_view(read), expected_sha256@),
{
    let (status, message) = match read {
        Ok(bytes) => {
            let actual = hash(bytes.as_slice());
            if actual == expected_sha256.to_owned() {
                (CheckStatus::Pass, "Original object matches SHA-256.".to_owned())
            } else {
                (CheckStatus::Fail, integrity(path).message)
            }
        },
        Err(e) => {
            if e.code == ErrorCode::LimitExceeded {
                (CheckStatus::NotChecked, e.message)
            } else {
                (CheckStatus::Fail, e.message)
            }
        },
    };
    VerificationItem { path: path.to_owned(), status, message }
}

/// Whether the object at position `i` is checked: it is the first with its path.
pub fn is_first_occurrence(paths: &Vec<String>, i: usize) -> (b: bool)
    requires
        i < paths@.len(),
    ensures
        b == !crate::text::views(paths@).take(i as int).contains(paths@[i as int]@),
{
    let mut k: usize = 0;
    while k < i
        invariant
            k <= i,
            i < paths@.len(),
            forall|j: int| 0 <= j < k ==> paths@[j]@ != paths@[i as int]@,
        decreases i - k,
    {
        if paths[k] == paths[i] {
            proof {
                assert(crate::text::views(paths@).take(i as int)[k as int] == paths@[i as int]@);
            }
            return false;
        }
        k = k + 1;
    }
    proof {
        if crate::text::views(paths@).take(i as int).contains(paths@[i as int]@) {
            let j = choose|j: int| 0 <= j < i && crate::text::views(paths@).take(i as int)[j] == paths@[i as int]@;
            assert(paths@[j]@ == paths@[i as int]@);
        }
    }
    true
}

} // verus!
