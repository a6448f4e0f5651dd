//! Selecting the Vault a command works on.
use vstd::prelude::*;
use crate::error::{config_message, ErrorCode, KbError};
use crate::text::{chars_of, trim, trimmed};
use crate::user_dirs::{env_lookup, env_value, env_views};

verus! {

/// What a command was told about its Vault.
#[derive(Debug, Clone)]
pub struct VaultSelection {
    pub explicit: Option<String>,
    pub environment: Vec<(String, String)>,
    pub current_dir: String,
}

/// Where the Vault is looked for.
#[derive(Debug, Clone, PartialEq, Eq)]
pub enum VaultSource {
    /// The given path or id.
    Selector(String),
    /// The working directory and its parents, then the registry.
    Search,
}

/// Where to look: the explicit selector, else `KB_VAULT` (which must not be
/// blank), else the working directory and then the registry.
pub fn vault_source(selection: &VaultSelection) -> (r: Result<VaultSource, KbError>)
    ensures
        match selection.explicit {
            Some(s) => r matches Ok(VaultSource::Selector(x)) && x@ == s@,
            None => match env_lookup(env_views(selection.environment@), "KB_VAULT"@) {
                Some(v) => if trim(v).len() == 0 {
                    r matches Err(e) && e.code == ErrorCode::InvalidConfig
                        && e.message@ == config_message("KB_VAULT"@, "value cannot be empty"@)
                } else {
                    r matches Ok(VaultSource::Selector(x)) && x@ == v
                },
                None => r matches Ok(VaultSource::Search),
            },
        },
{
    match &selection.explicit {
        Some(s) => Ok(VaultSource::Selector(s.clone())),
        None => match env_value(&selection.environment, "KB_VAULT") {
            Some(v) => {
                if trimmed(chars_of(v.as_str()).as_slice()).len() == 0 {
                    Err(KbError::invalid_config("KB_VAULT", "value cannot be empty"))
                } else {
                    Ok(VaultSource::Selector(v))
                }
            },
            None => Ok(VaultSource::Search),
        },
    }
}

/// The error for a Vault that cannot be found.
pub fn vault_not_found(message: &str) -> (e: KbError)
    ensures
        e.code == ErrorCode::VaultNotFound,
        e.message@ == message@,
{
    KbError::new(ErrorCode::VaultNotFound, message, false, "Pass --vault <path-or-id>, set KB_VAULT, or run kb vault list.")
}

/// The registered Vault to use when nothing else selects one: the only one,
/// or an error when there is none or more than one.
pub fn sole_registered(count: usize) -> (r: Result<usize, KbError>)
    ensures
        count == 1 ==> r == Ok::<usize, KbError>(0),
        count == 0 ==> (r matches Err(e) && e.code == ErrorCode::VaultNotFound
            && e.message@ == "No Vault selector or registration is available."@),
        count > 1 ==> (r matches Err(e) && e.code == ErrorCode::VaultNotFound
            && e.message@ == "More than one Vault is registered, so none can be selected implicitly."@),
{
    if count == 1 {
        Ok(0)
    } else if count == 0 {
        Err(vault_not_found("No Vault selector or registration is available."))
    } else {
        Err(vault_not_found("More than one Vault is registered, so none can be selected implicitly."))
    }
}

} // verus!
