//! Factual Vault state: configuration, admission, recovery and cache.
use vstd::prelude::*;
use crate::text::{append_chars, chars_of, string_of};

verus! {

/// Whether the configuration was interpreted under the current schema.
#[derive(Debug, Clone, Copy, PartialEq, Eq, Structural)]
pub enum ValidationState {
    Valid,
    NotInterpreted,
}

/// How many admission entries are enabled and disabled, when interpreted.
#[derive(Debug, Clone, Copy, PartialEq, Eq, Structural)]
pub struct AdmissionStatus {
    pub enabled: Option<usize>,
    pub disabled: Option<usize>,
}

/// How many operations wait for recovery.
#[derive(Debug, Clone, Copy, PartialEq, Eq, Structural)]
pub struct RecoveryStatus {
    pub pending_operations: usize,
}

/// The state of the local cache directory.
#[derive(Debug, Clone, Copy, PartialEq, Eq, Structural)]
pub enum CacheStatus {
    Missing,
    Empty,
    Present,
}

/// How many entries are enabled.
pub open spec fn count_enabled(flags: Seq<bool>) -> nat
    decreases flags.len(),
{
    if flags.len() == 0 {
        0
    } else {
        count_enabled(flags.drop_last()) + if flags.last() { 1nat } else { 0nat }
    }
}

proof fn lemma_count_enabled_bounded(flags: Seq<bool>)
    ensures
        count_enabled(flags) <= flags.len(),
    decreases flags.len(),
{
    if flags.len() > 0 {
        lemma_count_enabled_bounded(flags.drop_last());
    }
}

/// Configuration and admission state: under the current schema the
/// configuration is valid and the admission entries are counted by whether
/// they are enabled; under any other schema nothing is interpreted.
pub fn admission_state(current_schema: bool, enabled_flags: &[bool]) -> (r: (ValidationState, AdmissionStatus))
    ensures
        current_schema ==> r.0 == ValidationState::Valid
            && r.1.enabled == Some(count_enabled(enabled_flags@) as usize)
            && r.1.disabled == Some((enabled_flags@.len() - count_enabled(enabled_flags@)) as usize),
        !current_schema ==> r.0 == ValidationState::NotInterpreted && r.1.enabled is None && r.1.disabled is None,
{
    if !current_schema {
        return (ValidationState::NotInterpreted, AdmissionStatus { enabled: None, disabled: None });
    }
    let mut enabled: usize = 0;
    let mut i: usize = 0;
    while i < enabled_flags.len()
        invariant
            i <= enabled_flags@.len(),
            enabled == count_enabled(enabled_flags@.take(i as int)),
        decreases enabled_flags@.len() - i,
    {
        proof {
            assert(enabled_flags@.take(i + 1).drop_last() =~= enabled_flags@.take(i as int));
            lemma_count_enabled_bounded(enabled_flags@.take(i as int));
        }
        if enabled_flags[i] {
            enabled = enabled + 1;
        }
        i = i + 1;
    }
    proof {
        assert(enabled_flags@.take(enabled_flags@.len() as int) =~= enabled_flags@);
        lemma_count_enabled_bounded(enabled_flags@);
    }
    (
        ValidationState::Valid,
        AdmissionStatus { enabled: Some(enabled), disabled: Some(enabled_flags.len() - enabled) },
    )
}

/// The cache state: missing without a cache directory, empty without entries,
/// present otherwise.
pub fn cache_status(exists: bool, has_entry: bool) -> (c: CacheStatus)
    ensures
        c == (if !exists { CacheStatus::Missing } else if has_entry { CacheStatus::Present } else { CacheStatus::Empty }),
{
    if !exists {
        CacheStatus::Missing
    } else if has_entry {
        CacheStatus::Present
    } else {
        CacheStatus::Empty
    }
}

/// The address of a file of the Vault with the given id.
pub open spec fn vault_uri(vault_id: Seq<char>, file: Seq<char>) -> Seq<char> {
    "kb-vault://"@ + vault_id + "/"@ + file
}

/// The address of the Vault's rules and of its Wiki index.
pub fn vault_uris(vault_id: &str) -> (r: (String, String))
    ensures
        r.0@ == vault_uri(vault_id@, "KB.md"@),
        r.1@ == vault_uri(vault_id@, "Wiki/index.md"@),
{
    let mut a = chars_of("kb-vault://");
    append_chars(&mut a, chars_of(vault_id).as_slice());
    append_chars(&mut a, chars_of("/").as_slice());
    let mut b = a.clone();
    append_chars(&mut a, chars_of("KB.md").as_slice());
    append_chars(&mut b, chars_of("Wiki/index.md").as_slice());
    (string_of(a.as_slice()), string_of(b.as_slice()))
}

/// The execution states that end an update operation.
pub open spec fn terminal_state_name(s: Seq<char>) -> bool {
    s == "completed"@ || s == "completed_with_skips"@ || s == "partial"@ || s == "failed"@
}

/// A recorded update operation still needs recovery for a Vault when its
/// state is not a finished one and its scope names the Vault.
pub fn update_pending_for(execution_state: Option<&str>, scope_vaults: Option<&Vec<String>>, vault_id: &str) -> (b: bool)
    ensures
        b == (!(match execution_state { Some(s) => terminal_state_name(s@), None => false })
            && match scope_vaults {
                Some(v) => exists|i: int| 0 <= i < v@.len() && (#[trigger] v@[i])@ == vault_id@,
                None => false,
            }),
{
    let terminal = match execution_state {
        Some(s) => {
            let t = s.to_owned();
            t == "completed".to_owned() || t == "completed_with_skips".to_owned() || t == "partial".to_owned()
                || t == "failed".to_owned()
        },
        None => false,
    };
    let listed = match scope_vaults {
        Some(v) => {
            let id = vault_id.to_owned();
            let mut found = false;
            let mut i: usize = 0;
            while i < v.len()
                invariant
                    i <= v@.len(),
                    id@ == vault_id@,
                    found == exists|k: int| 0 <= k < i && (#[trigger] v@[k])@ == vault_id@,
                decreases v@.len() - i,
            {
                if v[i] == id {
                    found = true;
                }
                i = i + 1;
            }
            found
        },
        None => false,
    };
    !terminal && listed
}

} // verus!
