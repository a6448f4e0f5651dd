//! User-level directories: explicit overrides from the environment, or the
//! operating system's defaults.
use vstd::prelude::*;
use crate::error::{config_message, ErrorCode, KbError};
use crate::text::{chars_of, append_chars, ends_with, string_of, trim, trimmed};

verus! {

/// `std::path::Path::is_absolute`. What counts as absolute depends on the
/// platform, so nothing is stated of it but that an empty path is not.
#[verifier::external_body]
pub(crate) fn path_is_absolute(path: &str) -> (b: bool)
    ensures
        path@.len() == 0 ==> !b,
{
    std::path::Path::new(path).is_absolute()
}

/// `part` appended to `base` with one `/` between them.
pub open spec fn join_path(base: Seq<char>, part: Seq<char>) -> Seq<char> {
    if base.len() == 0 {
        part
    } else if ends_with(base, "/"@) {
        base + part
    } else {
        base + "/"@ + part
    }
}

/// `part` appended to `base` (see `join_path`).
pub fn join(base: &str, part: &str) -> (out: String)
    ensures
        out@ == join_path(base@, part@),
{
    let mut b = chars_of(base);
    let slash = chars_of("/");
    if b.len() > 0 && !crate::text::ends_with_exec(b.as_slice(), slash.as_slice()) {
        append_chars(&mut b, slash.as_slice());
    }
    append_chars(&mut b, chars_of(part).as_slice());
    string_of(b.as_slice())
}

/// The value of the first entry with the key.
pub open spec fn env_lookup(environment: Seq<(Seq<char>, Seq<char>)>, key: Seq<char>) -> Option<Seq<char>>
    decreases environment.len(),
{
    if environment.len() == 0 {
        None
    } else if environment[0].0 == key {
        Some(environment[0].1)
    } else {
        env_lookup(environment.drop_first(), key)
    }
}

pub open spec fn env_views(v: Seq<(String, String)>) -> Seq<(Seq<char>, Seq<char>)> {
    v.map_values(|p: (String, String)| (p.0@, p.1@))
}

/// The value that `key` has in the environment.
pub fn env_value(environment: &Vec<(String, String)>, key: &str) -> (r: Option<String>)
    ensures
        match r {
            Some(v) => env_lookup(env_views(environment@), key@) == Some(v@),
            None => env_lookup(env_views(environment@), key@) is None,
        },
{
    let ghost ev = env_views(environment@);
    let mut i: usize = 0;
    proof {
        assert(ev.skip(0) =~= ev);
    }
    while i < environment.len()
        invariant
            i <= environment@.len(),
            ev == env_views(environment@),
            env_lookup(ev, key@) == env_lookup(ev.skip(i as int), key@),
        decreases environment@.len() - i,
    {
        proof {
            assert(ev.skip(i as int)[0] == ev[i as int]);
            assert(ev.skip(i as int).drop_first() =~= ev.skip(i + 1));
        }
        if environment[i].0 == key.to_owned() {
            return Some(environment[i].1.clone());
        }
        i = i + 1;
    }
    None
}

/// What an override of `key` comes to, given whether its value is an absolute
/// path: none without a value; an error for a blank value, then for a
/// relative one; the value itself otherwise.
pub open spec fn override_outcome(key: Seq<char>, value: Option<Seq<char>>, absolute: bool) -> Result<Option<Seq<char>>, Seq<char>> {
    match value {
        None => Ok(None),
        Some(v) => if trim(v).len() == 0 {
            Err(config_message(key, "path override cannot be empty"@))
        } else if !absolute {
            Err(config_message(key, "path override must be absolute"@))
        } else {
            Ok(Some(v))
        },
    }
}

pub open spec fn outcome_of(r: Result<Option<String>, KbError>) -> Result<Option<Seq<char>>, Seq<char>> {
    match r {
        Ok(Some(v)) => Ok(Some(v@)),
        Ok(None) => Ok(None),
        Err(e) => Err(e.message@),
    }
}

/// The override of `key` (see `override_outcome`), given whether the value is absolute.
pub fn decide_override(key: &str, value: Option<String>, absolute: bool) -> (r: Result<Option<String>, KbError>)
    ensures
        outcome_of(r) == override_outcome(key@, match value {
            Some(v) => Some(v@),
            None => None,
        }, absolute),
        r matches Err(e) ==> e.code == ErrorCode::InvalidConfig,
{
    match value {
        None => Ok(None),
        Some(v) => {
            if trimmed(chars_of(v.as_str()).as_slice()).len() == 0 {
                Err(KbError::invalid_config(key, "path override cannot be empty"))
            } else if !absolute {
                Err(KbError::invalid_config(key, "path override must be absolute"))
            } else {
                Ok(Some(v))
            }
        },
    }
}

/// The override of `key` in the environment: none when unset, an error when
/// blank or not an absolute path, the path otherwise.
pub fn overridden_path(environment: &Vec<(String, String)>, key: &str) -> (r: Result<Option<String>, KbError>)
    ensures
        env_lookup(env_views(environment@), key@) is None ==> r matches Ok(None),
        env_lookup(env_views(environment@), key@) matches Some(v) ==> {
            ||| (trim(v).len() == 0 && outcome_of(r) == Err::<Option<Seq<char>>, Seq<char>>(config_message(key@, "path override cannot be empty"@)))
            ||| (trim(v).len() > 0 && outcome_of(r) == Err::<Option<Seq<char>>, Seq<char>>(config_message(key@, "path override must be absolute"@)))
            ||| (trim(v).len() > 0 && outcome_of(r) == Ok::<Option<Seq<char>>, Seq<char>>(Some(v)))
        },
{
    let value = env_value(environment, key);
    let absolute = match &value {
        Some(v) => path_is_absolute(v.as_str()),
        None => false,
    };
    decide_override(key, value, absolute)
}

/// Where the command-line tool keeps its configuration, state and cache.
#[derive(Debug, Clone)]
pub struct UserPaths {
    pub config_dir: String,
    pub state_dir: String,
    pub cache_dir: String,
}

impl UserPaths {
    pub fn new(config_dir: String, state_dir: String, cache_dir: String) -> (p: UserPaths)
        ensures
            p.config_dir == config_dir,
            p.state_dir == state_dir,
            p.cache_dir == cache_dir,
    {
        UserPaths { config_dir, state_dir, cache_dir }
    }

    /// The user paths: `KB_CONFIG_DIR`, `KB_STATE_DIR` and `KB_CACHE_DIR` when
    /// set, else the operating system's configuration directory, `state` under
    /// its local data directory, and its cache directory. The first bad
    /// override is the error.
    pub fn resolve(
        environment: &Vec<(String, String)>,
        os_config_dir: &str,
        os_data_local_dir: &str,
        os_cache_dir: &str,
    ) -> (r: Result<UserPaths, KbError>)
        ensures
            r matches Ok(p) ==> {
                &&& p.config_dir@ == match env_lookup(env_views(environment@), "KB_CONFIG_DIR"@) {
                    Some(v) => v,
                    None => os_config_dir@,
                }
                &&& p.state_dir@ == match env_lookup(env_views(environment@), "KB_STATE_DIR"@) {
                    Some(v) => v,
                    None => join_path(os_data_local_dir@, "state"@),
                }
                &&& p.cache_dir@ == match env_lookup(env_views(environment@), "KB_CACHE_DIR"@) {
                    Some(v) => v,
                    None => os_cache_dir@,
                }
            },
            (forall|k: Seq<char>| #![auto] (k == "KB_CONFIG_DIR"@ || k == "KB_STATE_DIR"@ || k == "KB_CACHE_DIR"@)
                ==> env_lookup(env_views(environment@), k) is None) ==> r is Ok,
    {
        let config = match overridden_path(environment, "KB_CONFIG_DIR")? {
            Some(v) => v,
            None => os_config_dir.to_owned(),
        };
        let state = match overridden_path(environment, "KB_STATE_DIR")? {
            Some(v) => v,
            None => join(os_data_local_dir, "state"),
        };
        let cache = match overridden_path(environment, "KB_CACHE_DIR")? {
            Some(v) => v,
            None => os_cache_dir.to_owned(),
        };
        Ok(UserPaths::new(config, state, cache))
    }
}

} // verus!
