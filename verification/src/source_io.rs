//! Content hashes and the reading budget of a source review.
use vstd::prelude::*;
use crate::error::{ErrorCode, KbError};
use crate::text::{append_chars, chars_of, decimal, decimal_chars, string_of};

verus! {

/// The SHA-256 digest of some bytes.
pub uninterp spec fn sha256_digest(bytes: Seq<u8>) -> Seq<u8>;

/// `sha2::Sha256::digest`: the 32-byte SHA-256 digest of the input.
#[verifier::external_body]
fn sha256(bytes: &[u8]) -> (d: Vec<u8>)
    ensures
        d@ == sha256_digest(bytes@),
        d@.len() == 32,
{
    <sha2::Sha256 as sha2::Digest>::digest(bytes).to_vec()
}

/// The lowercase hexadecimal digit of a value below 16.
pub open spec fn hex_digit(v: u8) -> char {
    if v < 10 { ((v + 48) as u8) as char } else { ((v + 87) as u8) as char }
}

/// Two lowercase hexadecimal digits per byte, the high half first.
pub open spec fn hex_chars(bytes: Seq<u8>) -> Seq<char>
    decreases bytes.len(),
{
    if bytes.len() == 0 {
        Seq::empty()
    } else {
        hex_chars(bytes.drop_last()) + seq![hex_digit(bytes.last() / 16), hex_digit(bytes.last() % 16)]
    }
}

/// `hex::encode`: two lowercase hexadecimal digits per byte, in order.
#[verifier::external_body]
fn hex_encode(bytes: &[u8]) -> (s: String)
    ensures
        s@ == hex_chars(bytes@),
{
    hex::encode(bytes)
}

/// The lowercase hexadecimal SHA-256 digest of some bytes.
pub fn hash(bytes: &[u8]) -> (h: String)
    ensures
        h@ == hex_chars(sha256_digest(bytes@)),
{
    let d = sha256(bytes);
    hex_encode(d.as_slice())
}

/// The message of a limit error.
pub open spec fn limit_message(name: Seq<char>, max: u64, path: Seq<char>) -> Seq<char> {
    name + " exceeds "@ + decimal(max as nat) + " at "@ + path
}

/// The error for a limit that a review went over.
pub fn limit(name: &str, max: u64, path: &str) -> (e: KbError)
    ensures
        e.code == ErrorCode::LimitExceeded,
        !e.retryable,
        e.message@ == limit_message(name@, max, path@),
        e.remediation@ == "Adjust the configured limit or narrow the admitted files."@,
{
    let mut m = chars_of(name);
    append_chars(&mut m, chars_of(" exceeds ").as_slice());
    append_chars(&mut m, decimal_chars(max).as_slice());
    append_chars(&mut m, chars_of(" at ").as_slice());
    append_chars(&mut m, chars_of(path).as_slice());
    KbError {
        code: ErrorCode::LimitExceeded,
        message: string_of(m.as_slice()),
        retryable: false,
        remediation: "Adjust the configured limit or narrow the admitted files.".to_owned(),
        resource_uri: None,
        findings: Vec::new(),
    }
}

/// How much one review may visit and read.
pub struct Budget {
    file: u64,
    total: u64,
    count: u64,
    read: u64,
    visited: u64,
}

/// The limits of a budget and what it has used.
pub struct BudgetView {
    pub max_file_bytes: u64,
    pub max_total_read_bytes: u64,
    pub max_files: u64,
    pub read: u64,
    pub visited: u64,
}

impl View for Budget {
    type V = BudgetView;

    closed spec fn view(&self) -> BudgetView {
        BudgetView {
            max_file_bytes: self.file,
            max_total_read_bytes: self.total,
            max_files: self.count,
            read: self.read,
            visited: self.visited,
        }
    }
}

impl Budget {
    /// A fresh budget with the configured limits.
    pub fn new(max_file_bytes: u64, max_total_read_bytes: u64, max_files_per_review: u64) -> (b: Budget)
        ensures
            b@ == (BudgetView {
                max_file_bytes,
                max_total_read_bytes,
                max_files: max_files_per_review,
                read: 0,
                visited: 0,
            }),
    {
        Budget { file: max_file_bytes, total: max_total_read_bytes, count: max_files_per_review, read: 0, visited: 0 }
    }

    /// Count one more visited entry; past the file limit it is an error.
    pub fn visit(&mut self, path: &str) -> (r: Result<(), KbError>)
        requires
            old(self)@.visited < u64::MAX,
        ensures
            final(self)@ == (BudgetView { visited: (old(self)@.visited + 1) as u64, ..old(self)@ }),
            r is Ok <==> old(self)@.visited + 1 <= old(self)@.max_files,
            r matches Err(e) ==> e.code == ErrorCode::LimitExceeded
                && e.message@ == limit_message("limits.max_files_per_review"@, old(self)@.max_files, path@),
    {
        self.visited = self.visited + 1;
        if self.visited > self.count {
            return Err(limit("limits.max_files_per_review", self.count, path));
        }
        Ok(())
    }

    /// How many bytes the next file may have: the file limit, or what is left
    /// of the total if that is less. One byte more is read to detect excess.
    pub fn allowance(&self) -> (n: u64)
        ensures
            n == if self@.max_file_bytes <= self@.max_total_read_bytes - self@.read {
                self@.max_file_bytes as int
            } else if self@.read <= self@.max_total_read_bytes {
                self@.max_total_read_bytes - self@.read
            } else {
                0
            },
    {
        let left = self.total.saturating_sub(self.read);
        if self.file <= left { self.file } else { left }
    }

    /// Account for a file of `len` bytes: over the file limit it is refused and
    /// nothing is counted; otherwise it counts towards the total, which is an
    /// error once exceeded.
    pub fn record_read(&mut self, len: u64, path: &str) -> (r: Result<(), KbError>)
        ensures
            len > old(self)@.max_file_bytes ==> final(self)@ == old(self)@ && (r matches Err(e)
                && e.code == ErrorCode::LimitExceeded
                && e.message@ == limit_message("limits.max_file_bytes"@, old(self)@.max_file_bytes, path@)),
            len <= old(self)@.max_file_bytes ==> {
                let read = if old(self)@.read + len <= u64::MAX { (old(self)@.read + len) as u64 } else { u64::MAX };
                &&& final(self)@ == (BudgetView { read, ..old(self)@ })
                &&& (r is Ok <==> read <= old(self)@.max_total_read_bytes)
                &&& (r matches Err(e) ==> e.code == ErrorCode::LimitExceeded
                    && e.message@ == limit_message("limits.max_total_read_bytes"@, old(self)@.max_total_read_bytes, path@))
            },
    {
        if len > self.file {
            return Err(limit("limits.max_file_bytes", self.file, path));
        }
        self.read = self.read.saturating_add(len);
        if self.read > self.total {
            return Err(limit("limits.max_total_read_bytes", self.total, path));
        }
        Ok(())
    }
}

} // verus!
