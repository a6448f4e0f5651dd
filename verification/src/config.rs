//! Configuration: its layers and their precedence, command-line and
//! environment overrides, and previews of edits.
use vstd::prelude::*;
use crate::error::{config_message, ErrorCode, KbError};
use crate::sync::{parsed_u64, parse_u64};
use crate::text::{append_chars, chars_of, lines, lines_of, string_of, vviews};
use crate::user_dirs::{env_lookup, env_value, env_views, join, join_path};

verus! {

/// The configuration file that a change edits.
#[derive(Debug, Clone, Copy, PartialEq, Eq, Structural)]
pub enum ConfigTarget {
    Vault,
    Local,
    User,
}

/// A previewed or written configuration edit.
#[derive(Debug, Clone)]
pub struct ConfigChange {
    pub path: String,
    pub diff: String,
    pub written: bool,
}

/// The outcome of validating every configuration source.
#[derive(Debug, Clone, Copy, PartialEq, Eq, Structural)]
pub struct ValidationReport {
    pub valid: bool,
    pub admission_entries: usize,
}

/// Overrides from the environment and the command line, each as key and
/// value pairs in key order.
#[derive(Debug, Clone)]
pub struct ConfigOverrides {
    pub environment: Vec<(String, String)>,
    pub cli: Vec<(String, String)>,
}

/// Where an effective setting came from, lowest precedence first.
#[derive(Debug, Clone, Copy, PartialEq, Eq, Structural)]
pub enum ConfigSource {
    BuiltIn,
    User,
    Vault,
    VaultLocal,
    Environment,
    Cli,
}

/// How search runs.
#[derive(Debug, Clone, Copy, PartialEq, Eq, Structural)]
pub enum SearchMode {
    Direct,
    Bm25,
}

/// The settings one configuration layer gives; `None` leaves a setting alone.
#[derive(Debug, Clone)]
pub struct PartialConfig {
    pub schema_version: Option<String>,
    pub vault_id: Option<String>,
    pub search_mode: Option<SearchMode>,
    pub max_file_bytes: Option<u64>,
    pub max_files_per_review: Option<u64>,
    pub max_total_read_bytes: Option<u64>,
    pub include_hidden: Option<bool>,
    pub plan_retention_hours: Option<u64>,
}

/// The effective settings, each with the layer it came from.
#[derive(Debug)]
pub struct EffectiveConfig {
    pub vault_id: String,
    pub search_mode: (SearchMode, ConfigSource),
    pub max_file_bytes: (u64, ConfigSource),
    pub max_files_per_review: (u64, ConfigSource),
    pub max_total_read_bytes: (u64, ConfigSource),
    pub include_hidden: (bool, ConfigSource),
    pub plan_retention_hours: (u64, ConfigSource),
}

/// The built-in values of every setting.
#[derive(Debug, Clone, Copy)]
pub struct BuiltIn {
    pub search_mode: SearchMode,
    pub max_file_bytes: u64,
    pub max_files_per_review: u64,
    pub max_total_read_bytes: u64,
    pub include_hidden: bool,
    pub plan_retention_hours: u64,
}

pub open spec fn pick<T>(current: (T, ConfigSource), layer: Option<T>, source: ConfigSource) -> (T, ConfigSource) {
    match layer {
        Some(v) => (v, source),
        None => current,
    }
}

/// A layer applied over the settings: each setting it gives replaces the
/// current one and is attributed to the layer.
pub open spec fn applied(c: EffectiveConfig, p: PartialConfig, source: ConfigSource) -> EffectiveConfig {
    EffectiveConfig {
        vault_id: c.vault_id,
        search_mode: pick(c.search_mode, p.search_mode, source),
        max_file_bytes: pick(c.max_file_bytes, p.max_file_bytes, source),
        max_files_per_review: pick(c.max_files_per_review, p.max_files_per_review, source),
        max_total_read_bytes: pick(c.max_total_read_bytes, p.max_total_read_bytes, source),
        include_hidden: pick(c.include_hidden, p.include_hidden, source),
        plan_retention_hours: pick(c.plan_retention_hours, p.plan_retention_hours, source),
    }
}

fn pick_exec<T: Copy>(current: (T, ConfigSource), layer: Option<T>, source: ConfigSource) -> (r: (T, ConfigSource))
    ensures
        r == pick(current, layer, source),
{
    match layer {
        Some(v) => (v, source),
        None => current,
    }
}

/// Apply one layer (see `applied`).
pub fn apply(c: EffectiveConfig, p: &PartialConfig, source: ConfigSource) -> (r: EffectiveConfig)
    ensures
        r == applied(c, *p, source),
{
    EffectiveConfig {
        vault_id: c.vault_id,
        search_mode: pick_exec(c.search_mode, p.search_mode, source),
        max_file_bytes: pick_exec(c.max_file_bytes, p.max_file_bytes, source),
        max_files_per_review: pick_exec(c.max_files_per_review, p.max_files_per_review, source),
        max_total_read_bytes: pick_exec(c.max_total_read_bytes, p.max_total_read_bytes, source),
        include_hidden: pick_exec(c.include_hidden, p.include_hidden, source),
        plan_retention_hours: pick_exec(c.plan_retention_hours, p.plan_retention_hours, source),
    }
}

pub open spec fn built_in(vault_id: String, d: BuiltIn) -> EffectiveConfig {
    EffectiveConfig {
        vault_id,
        search_mode: (d.search_mode, ConfigSource::BuiltIn),
        max_file_bytes: (d.max_file_bytes, ConfigSource::BuiltIn),
        max_files_per_review: (d.max_files_per_review, ConfigSource::BuiltIn),
        max_total_read_bytes: (d.max_total_read_bytes, ConfigSource::BuiltIn),
        include_hidden: (d.include_hidden, ConfigSource::BuiltIn),
        plan_retention_hours: (d.plan_retention_hours, ConfigSource::BuiltIn),
    }
}

/// The first layer, highest precedence first, that gives a setting.
pub open spec fn highest<T>(d: T, user: Option<T>, vault: Option<T>, local: Option<T>, env: Option<T>, cli: Option<T>) -> (T, ConfigSource) {
    match cli {
        Some(v) => (v, ConfigSource::Cli),
        None => match env {
            Some(v) => (v, ConfigSource::Environment),
            None => match local {
                Some(v) => (v, ConfigSource::VaultLocal),
                None => match vault {
                    Some(v) => (v, ConfigSource::Vault),
                    None => match user {
                        Some(v) => (v, ConfigSource::User),
                        None => (d, ConfigSource::BuiltIn),
                    },
                },
            },
        },
    }
}

/// Layers applied in precedence order give each setting from the highest
/// layer that sets it, and the built-in value only when none does.
pub proof fn layers_take_precedence(vault_id: String, d: BuiltIn, user: PartialConfig, vault: PartialConfig, local: PartialConfig, env: PartialConfig, cli: PartialConfig)
    ensures ({
        let c = applied(applied(applied(applied(applied(built_in(vault_id, d), user, ConfigSource::User), vault, ConfigSource::Vault), local, ConfigSource::VaultLocal), env, ConfigSource::Environment), cli, ConfigSource::Cli);
        &&& c.vault_id == vault_id
        &&& c.search_mode == highest(d.search_mode, user.search_mode, vault.search_mode, local.search_mode, env.search_mode, cli.search_mode)
        &&& c.max_file_bytes == highest(d.max_file_bytes, user.max_file_bytes, vault.max_file_bytes, local.max_file_bytes, env.max_file_bytes, cli.max_file_bytes)
        &&& c.max_files_per_review == highest(d.max_files_per_review, user.max_files_per_review, vault.max_files_per_review, local.max_files_per_review, env.max_files_per_review, cli.max_files_per_review)
        &&& c.max_total_read_bytes == highest(d.max_total_read_bytes, user.max_total_read_bytes, vault.max_total_read_bytes, local.max_total_read_bytes, env.max_total_read_bytes, cli.max_total_read_bytes)
        &&& c.include_hidden == highest(d.include_hidden, user.include_hidden, vault.include_hidden, local.include_hidden, env.include_hidden, cli.include_hidden)
        &&& c.plan_retention_hours == highest(d.plan_retention_hours, user.plan_retention_hours, vault.plan_retention_hours, local.plan_retention_hours, env.plan_retention_hours, cli.plan_retention_hours)
    }),
{
}

/// The file that a target edits.
pub open spec fn target_file(vault_root: Seq<char>, config_dir: Seq<char>, target: ConfigTarget) -> Seq<char> {
    match target {
        ConfigTarget::Vault => join_path(vault_root, ".kb/config.yml"@),
        ConfigTarget::Local => join_path(vault_root, ".kb/config.local.yml"@),
        ConfigTarget::User => join_path(config_dir, "config.yml"@),
    }
}

/// The file that a target edits (see `target_file`).
pub fn target_path(vault_root: &str, config_dir: &str, target: ConfigTarget) -> (p: String)
    ensures
        p@ == target_file(vault_root@, config_dir@, target),
{
    match target {
        ConfigTarget::Vault => join(vault_root, ".kb/config.yml"),
        ConfigTarget::Local => join(vault_root, ".kb/config.local.yml"),
        ConfigTarget::User => join(config_dir, "config.yml"),
    }
}

pub open spec fn prefixed_lines(ls: Seq<Seq<char>>, mark: char) -> Seq<char>
    decreases ls.len(),
{
    if ls.len() == 0 {
        Seq::empty()
    } else {
        prefixed_lines(ls.drop_last(), mark) + seq![mark] + ls.last() + seq!['\n']
    }
}

/// A whole-file diff: the path twice as header, every old line with `-`,
/// every new line with `+`.
pub open spec fn whole_diff(path: Seq<char>, before: Seq<char>, after: Seq<char>) -> Seq<char> {
    "--- "@ + path + "\n+++ "@ + path + "\n"@ + prefixed_lines(lines_of(before), '-') + prefixed_lines(lines_of(after), '+')
}

fn push_lines(out: &mut Vec<char>, text: &str, mark: char)
    ensures
        final(out)@ == old(out)@ + prefixed_lines(lines_of(text@), mark),
{
    let ls = lines(chars_of(text).as_slice());
    let ghost base = out@;
    let mut i: usize = 0;
    proof {
        assert(vviews(ls@).take(0) =~= Seq::<Seq<char>>::empty());
        assert(out@ =~= base + prefixed_lines(Seq::empty(), mark));
    }
    while i < ls.len()
        invariant
            i <= ls@.len(),
            vviews(ls@) == lines_of(text@),
            out@ == base + prefixed_lines(vviews(ls@).take(i as int), mark),
        decreases ls@.len() - i,
    {
        proof {
            assert(vviews(ls@).take(i + 1).drop_last() =~= vviews(ls@).take(i as int));
            assert(vviews(ls@).take(i + 1).last() == ls@[i as int]@);
        }
        out.push(mark);
        append_chars(out, ls[i].as_slice());
        out.push('\n');
        proof {
            assert(out@ =~= base + prefixed_lines(vviews(ls@).take(i + 1), mark));
        }
        i = i + 1;
    }
    proof {
        assert(vviews(ls@).take(ls@.len() as int) =~= vviews(ls@));
    }
}

/// The diff between two texts of a file (see `whole_diff`).
pub fn line_diff(path: &str, before: &str, after: &str) -> (d: String)
    ensures
        d@ == whole_diff(path@, before@, after@),
{
    let mut out = chars_of("--- ");
    append_chars(&mut out, chars_of(path).as_slice());
    append_chars(&mut out, chars_of("\n+++ ").as_slice());
    append_chars(&mut out, chars_of(path).as_slice());
    append_chars(&mut out, chars_of("\n").as_slice());
    push_lines(&mut out, before, '-');
    push_lines(&mut out, after, '+');
    string_of(out.as_slice())
}

/// The keys a configuration edit may change.
pub open spec fn supported_key(key: Seq<char>) -> bool {
    key == "search.mode"@ || key == "limits.max_file_bytes"@ || key == "limits.max_files_per_review"@
        || key == "limits.max_total_read_bytes"@ || key == "files.include_hidden"@
        || key == "operations.plan_retention_hours"@
}

fn is_key(key: &str, lit: &str) -> (b: bool)
    ensures
        b == (key@ == lit@),
{
    crate::text::equal_chars(chars_of(key).as_slice(), chars_of(lit).as_slice())
}

/// Accept a supported key; the identity fields and unknown keys are refused.
pub fn validate_supported_key(key: &str) -> (r: Result<(), KbError>)
    ensures
        r is Ok <==> supported_key(key@),
        r matches Err(e) ==> e.code == ErrorCode::InvalidConfig && e.message@ == config_message(
            key@,
            if key@ == "schema_version"@ || key@ == "vault_id"@ {
                "this identity field cannot be changed through kb config"@
            } else {
                "unknown configuration key"@
            },
        ),
{
    if is_key(key, "search.mode") || is_key(key, "limits.max_file_bytes") || is_key(key, "limits.max_files_per_review")
        || is_key(key, "limits.max_total_read_bytes") || is_key(key, "files.include_hidden")
        || is_key(key, "operations.plan_retention_hours") {
        Ok(())
    } else if is_key(key, "schema_version") || is_key(key, "vault_id") {
        Err(KbError::invalid_config(key, "this identity field cannot be changed through kb config"))
    } else {
        Err(KbError::invalid_config(key, "unknown configuration key"))
    }
}

/// A string as Rust's `Debug` shows it (quoted and escaped).
pub uninterp spec fn debug_quoted(s: Seq<char>) -> Seq<char>;

/// `<str as Debug>::fmt`: the quoted, escaped form of a string.
#[verifier::external_body]
fn quoted(s: &str) -> (q: String)
    ensures
        q@ == debug_quoted(s@),
{
    format!("{:?}", s)
}

/// The message of an override with a bad value.
pub open spec fn override_message(key: Seq<char>, value: Seq<char>, reason: Seq<char>) -> Seq<char> {
    config_message(key, "invalid value "@ + debug_quoted(value) + ": "@ + reason)
}

fn invalid_override(key: &str, value: &str, reason: &str) -> (e: KbError)
    ensures
        e.code == ErrorCode::InvalidConfig,
        e.message@ == override_message(key@, value@, reason@),
{
    let mut detail = chars_of("invalid value ");
    append_chars(&mut detail, chars_of(quoted(value).as_str()).as_slice());
    append_chars(&mut detail, chars_of(": ").as_slice());
    append_chars(&mut detail, chars_of(reason).as_slice());
    KbError::invalid_config(key, string_of(detail.as_slice()).as_str())
}

/// A positive whole number, or an error naming the key.
pub fn parse_positive_u64(key: &str, value: &str) -> (r: Result<u64, KbError>)
    ensures
        r matches Err(e) ==> e.code == ErrorCode::InvalidConfig,
        match parsed_u64(value@) {
            None => r matches Err(e) && e.message@ == override_message(key@, value@, "expected a positive integer"@),
            Some(n) => if n == 0 {
                r matches Err(e) && e.message@ == override_message(key@, value@, "value must be greater than zero"@)
            } else {
                r == Ok::<u64, KbError>(n)
            },
        },
{
    match parse_u64(chars_of(value).as_slice()) {
        None => Err(invalid_override(key, value, "expected a positive integer")),
        Some(0) => Err(invalid_override(key, value, "value must be greater than zero")),
        Some(n) => Ok(n),
    }
}

pub open spec fn parsed_mode(v: Seq<char>) -> Option<SearchMode> {
    if v == "direct"@ {
        Some(SearchMode::Direct)
    } else if v == "bm25"@ {
        Some(SearchMode::Bm25)
    } else {
        None
    }
}

pub open spec fn parsed_bool(v: Seq<char>) -> Option<bool> {
    if v == "true"@ {
        Some(true)
    } else if v == "false"@ {
        Some(false)
    } else {
        None
    }
}

/// A key's character in an environment variable name: `_` for `.`, ASCII
/// letters upper-cased.
pub open spec fn env_char(c: char) -> char {
    if c == '.' {
        '_'
    } else if 'a' <= c && c <= 'z' {
        ((c as u32) - 32) as char
    } else {
        c
    }
}

/// The text of a key in error messages: itself on the command line, and for
/// the environment `KB_` with the key's dots as underscores, upper-cased.
pub open spec fn display_key(key: Seq<char>, environment: bool) -> Seq<char> {
    if environment {
        "KB_"@ + key.map_values(|c: char| env_char(c))
    } else {
        key
    }
}

/// One override applied to a layer, or why it is refused.
pub open spec fn override_step(p: PartialConfig, key: Seq<char>, value: Seq<char>, environment: bool) -> Result<PartialConfig, Seq<char>> {
    let shown = display_key(key, environment);
    if key == "search.mode"@ {
        match parsed_mode(value) {
            Some(m) => Ok(PartialConfig { search_mode: Some(m), ..p }),
            None => Err(override_message(shown, value, "expected direct or bm25"@)),
        }
    } else if key == "files.include_hidden"@ {
        match parsed_bool(value) {
            Some(b) => Ok(PartialConfig { include_hidden: Some(b), ..p }),
            None => Err(override_message(shown, value, "expected true or false"@)),
        }
    } else if key == "limits.max_file_bytes"@ || key == "limits.max_files_per_review"@
        || key == "limits.max_total_read_bytes"@ || key == "operations.plan_retention_hours"@ {
        match parsed_u64(value) {
            None => Err(override_message(shown, value, "expected a positive integer"@)),
            Some(n) => if n == 0 {
                Err(override_message(shown, value, "value must be greater than zero"@))
            } else if key == "limits.max_file_bytes"@ {
                Ok(PartialConfig { max_file_bytes: Some(n), ..p })
            } else if key == "limits.max_files_per_review"@ {
                Ok(PartialConfig { max_files_per_review: Some(n), ..p })
            } else if key == "limits.max_total_read_bytes"@ {
                Ok(PartialConfig { max_total_read_bytes: Some(n), ..p })
            } else {
                Ok(PartialConfig { plan_retention_hours: Some(n), ..p })
            },
        }
    } else {
        Err(config_message(shown, "unknown command-line configuration key"@))
    }
}

fn env_char_exec(c: char) -> (out: char)
    ensures
        out == env_char(c),
{
    if c == '.' {
        '_'
    } else if 'a' <= c && c <= 'z' {
        let code: u8 = (c as u8) - 32;
        code as char
    } else {
        c
    }
}

fn display_key_exec(key: &str, environment: bool) -> (out: String)
    ensures
        out@ == display_key(key@, environment),
{
    if !environment {
        return key.to_owned();
    }
    let k = chars_of(key);
    let mut out = chars_of("KB_");
    let ghost base = out@;
    let mut i: usize = 0;
    while i < k.len()
        invariant
            i <= k@.len(),
            base == "KB_"@,
            out@ == base + k@.take(i as int).map_values(|c: char| env_char(c)),
        decreases k@.len() - i,
    {
        out.push(env_char_exec(k[i]));
        proof {
            assert(k@.take(i + 1).map_values(|c: char| env_char(c)) =~= k@.take(i as int).map_values(|c: char| env_char(c)).push(env_char(k@[i as int])));
        }
        i = i + 1;
    }
    proof {
        assert(k@.take(k@.len() as int) =~= k@);
    }
    string_of(out.as_slice())
}

pub open spec fn partial_result(r: Result<PartialConfig, KbError>) -> Result<PartialConfig, Seq<char>> {
    match r {
        Ok(p) => Ok(p),
        Err(e) => Err(e.message@),
    }
}

fn override_step_exec(p: PartialConfig, key: &str, value: &str, environment: bool) -> (r: Result<PartialConfig, KbError>)
    ensures
        partial_result(r) == override_step(p, key@, value@, environment),
        r matches Err(e) ==> e.code == ErrorCode::InvalidConfig,
{
    let shown = display_key_exec(key, environment);
    let mut p = p;
    if is_key(key, "search.mode") {
        if is_key(value, "direct") {
            p.search_mode = Some(SearchMode::Direct);
        } else if is_key(value, "bm25") {
            p.search_mode = Some(SearchMode::Bm25);
        } else {
            return Err(invalid_override(shown.as_str(), value, "expected direct or bm25"));
        }
        Ok(p)
    } else if is_key(key, "files.include_hidden") {
        if is_key(value, "true") {
            p.include_hidden = Some(true);
        } else if is_key(value, "false") {
            p.include_hidden = Some(false);
        } else {
            return Err(invalid_override(shown.as_str(), value, "expected true or false"));
        }
        Ok(p)
    } else if is_key(key, "limits.max_file_bytes") || is_key(key, "limits.max_files_per_review")
        || is_key(key, "limits.max_total_read_bytes") || is_key(key, "operations.plan_retention_hours") {
        let n = parse_positive_u64(shown.as_str(), value)?;
        if is_key(key, "limits.max_file_bytes") {
            p.max_file_bytes = Some(n);
        } else if is_key(key, "limits.max_files_per_review") {
            p.max_files_per_review = Some(n);
        } else if is_key(key, "limits.max_total_read_bytes") {
            p.max_total_read_bytes = Some(n);
        } else {
            p.plan_retention_hours = Some(n);
        }
        Ok(p)
    } else {
        Err(KbError::invalid_config(shown.as_str(), "unknown command-line configuration key"))
    }
}

/// The current schema version.
pub open spec fn current_schema() -> Seq<char> {
    "v1.0"@
}

pub open spec fn override_layer_base() -> PartialConfig {
    PartialConfig {
        schema_version: None,
        vault_id: None,
        search_mode: None,
        max_file_bytes: None,
        max_files_per_review: None,
        max_total_read_bytes: None,
        include_hidden: None,
        plan_retention_hours: None,
    }
}

/// Overrides applied in order to an empty layer; the first bad one is the error.
pub open spec fn overrides_fold(values: Seq<(Seq<char>, Seq<char>)>, environment: bool) -> Result<PartialConfig, Seq<char>>
    decreases values.len(),
{
    if values.len() == 0 {
        Ok(override_layer_base())
    } else {
        match overrides_fold(values.drop_last(), environment) {
            Err(e) => Err(e),
            Ok(p) => override_step(p, values.last().0, values.last().1, environment),
        }
    }
}

proof fn lemma_fold_error_stays(values: Seq<(Seq<char>, Seq<char>)>, environment: bool, k: int)
    requires
        0 <= k <= values.len(),
        overrides_fold(values.take(k), environment) is Err,
    ensures
        overrides_fold(values, environment) == overrides_fold(values.take(k), environment),
    decreases values.len() - k,
{
    if k < values.len() {
        assert(values.take(k + 1).drop_last() =~= values.take(k));
        lemma_fold_error_stays(values, environment, k + 1);
    } else {
        assert(values.take(k) =~= values);
    }
}

/// The layer that overrides give (see `overrides_fold`).
pub fn parse_override_map(values: &Vec<(String, String)>, environment: bool) -> (r: Result<PartialConfig, KbError>)
    ensures
        partial_result(r) == overrides_fold(env_views(values@), environment),
        r matches Err(e) ==> e.code == ErrorCode::InvalidConfig,
{
    let ghost vv = env_views(values@);
    let mut p = PartialConfig {
        schema_version: None,
        vault_id: None,
        search_mode: None,
        max_file_bytes: None,
        max_files_per_review: None,
        max_total_read_bytes: None,
        include_hidden: None,
        plan_retention_hours: None,
    };
    let mut i: usize = 0;
    proof {
        assert(vv.take(0) =~= Seq::<(Seq<char>, Seq<char>)>::empty());
    }
    while i < values.len()
        invariant
            i <= values@.len(),
            vv == env_views(values@),
            overrides_fold(vv.take(i as int), environment) == Ok::<PartialConfig, Seq<char>>(p),
        decreases values@.len() - i,
    {
        proof {
            assert(vv.take(i + 1).drop_last() =~= vv.take(i as int));
            assert(vv.take(i + 1).last() == (values@[i as int].0@, values@[i as int].1@));
        }
        p = match override_step_exec(p, values[i].0.as_str(), values[i].1.as_str(), environment) {
            Ok(q) => q,
            Err(e) => {
                proof {
                    lemma_fold_error_stays(vv, environment, i + 1);
                }
                return Err(e);
            },
        };
        i = i + 1;
    }
    proof {
        assert(vv.take(values@.len() as int) =~= vv);
    }
    Ok(p)
}

/// The environment variables that override settings, with their keys, in key order.
pub open spec fn environment_keys() -> Seq<(Seq<char>, Seq<char>)> {
    seq![
        ("KB_FILES_INCLUDE_HIDDEN"@, "files.include_hidden"@),
        ("KB_LIMITS_MAX_FILE_BYTES"@, "limits.max_file_bytes"@),
        ("KB_LIMITS_MAX_FILES_PER_REVIEW"@, "limits.max_files_per_review"@),
        ("KB_LIMITS_MAX_TOTAL_READ_BYTES"@, "limits.max_total_read_bytes"@),
        ("KB_OPERATIONS_PLAN_RETENTION_HOURS"@, "operations.plan_retention_hours"@),
        ("KB_SEARCH_MODE"@, "search.mode"@),
    ]
}

/// The settings the environment sets, as keys and values in key order.
pub open spec fn environment_settings(env: Seq<(Seq<char>, Seq<char>)>, names: Seq<(Seq<char>, Seq<char>)>) -> Seq<(Seq<char>, Seq<char>)>
    decreases names.len(),
{
    if names.len() == 0 {
        Seq::empty()
    } else {
        let rest = environment_settings(env, names.drop_last());
        match env_lookup(env, names.last().0) {
            Some(v) => rest.push((names.last().1, v)),
            None => rest,
        }
    }
}

/// The layer of the environment's overrides: each known variable sets its key.
pub fn environment_layer(environment: &Vec<(String, String)>) -> (r: Result<PartialConfig, KbError>)
    ensures
        partial_result(r) == overrides_fold(environment_settings(env_views(environment@), environment_keys()), true),
        r matches Err(e) ==> e.code == ErrorCode::InvalidConfig,
{
    let names: [(&str, &str); 6] = [
        ("KB_FILES_INCLUDE_HIDDEN", "files.include_hidden"),
        ("KB_LIMITS_MAX_FILE_BYTES", "limits.max_file_bytes"),
        ("KB_LIMITS_MAX_FILES_PER_REVIEW", "limits.max_files_per_review"),
        ("KB_LIMITS_MAX_TOTAL_READ_BYTES", "limits.max_total_read_bytes"),
        ("KB_OPERATIONS_PLAN_RETENTION_HOURS", "operations.plan_retention_hours"),
        ("KB_SEARCH_MODE", "search.mode"),
    ];
    let ghost nv = names@.map_values(|n: (&str, &str)| (n.0@, n.1@));
    proof {
        assert(nv =~= environment_keys());
    }
    let mut mapped: Vec<(String, String)> = Vec::new();
    let mut i: usize = 0;
    proof {
        assert(nv.take(0) =~= Seq::<(Seq<char>, Seq<char>)>::empty());
        assert(env_views(mapped@) =~= Seq::<(Seq<char>, Seq<char>)>::empty());
    }
    while i < 6
        invariant
            i <= 6,
            nv == names@.map_values(|n: (&str, &str)| (n.0@, n.1@)),
            env_views(mapped@) == environment_settings(env_views(environment@), nv.take(i as int)),
        decreases 6 - i,
    {
        proof {
            assert(nv.take(i + 1).drop_last() =~= nv.take(i as int));
            assert(nv.take(i + 1).last() == (names@[i as int].0@, names@[i as int].1@));
        }
        match env_value(environment, names[i].0) {
            Some(v) => {
                let ghost before = mapped@;
                mapped.push((names[i].1.to_owned(), v));
                proof {
                    assert(env_views(mapped@) =~= env_views(before).push((names@[i as int].1@, v@)));
                }
            },
            None => {},
        }
        i = i + 1;
    }
    proof {
        assert(nv.take(6) =~= nv);
    }
    parse_override_map(&mapped, true)
}

/// The layer of the command line's overrides, in the order given.
pub fn cli_layer(cli: &Vec<(String, String)>) -> (r: Result<PartialConfig, KbError>)
    ensures
        partial_result(r) == overrides_fold(env_views(cli@), false),
        r matches Err(e) ==> e.code == ErrorCode::InvalidConfig,
{
    parse_override_map(cli, false)
}

/// Every limit and the plan retention must be positive; the first that is
/// not is named.
pub open spec fn validated(c: EffectiveConfig) -> Result<(), Seq<char>> {
    if c.max_file_bytes.0 == 0 {
        Err(config_message("limits.max_file_bytes"@, "value must be greater than zero"@))
    } else if c.max_files_per_review.0 == 0 {
        Err(config_message("limits.max_files_per_review"@, "value must be greater than zero"@))
    } else if c.max_total_read_bytes.0 == 0 {
        Err(config_message("limits.max_total_read_bytes"@, "value must be greater than zero"@))
    } else if c.plan_retention_hours.0 == 0 {
        Err(config_message("operations.plan_retention_hours"@, "value must be greater than zero"@))
    } else {
        Ok(())
    }
}

pub open spec fn unit_result(r: Result<(), KbError>) -> Result<(), Seq<char>> {
    match r {
        Ok(()) => Ok(()),
        Err(e) => Err(e.message@),
    }
}

/// Check the effective settings (see `validated`).
pub fn validate_effective(c: &EffectiveConfig) -> (r: Result<(), KbError>)
    ensures
        unit_result(r) == validated(*c),
        r matches Err(e) ==> e.code == ErrorCode::InvalidConfig,
{
    if c.max_file_bytes.0 == 0 {
        return Err(KbError::invalid_config("limits.max_file_bytes", "value must be greater than zero"));
    }
    if c.max_files_per_review.0 == 0 {
        return Err(KbError::invalid_config("limits.max_files_per_review", "value must be greater than zero"));
    }
    if c.max_total_read_bytes.0 == 0 {
        return Err(KbError::invalid_config("limits.max_total_read_bytes", "value must be greater than zero"));
    }
    if c.plan_retention_hours.0 == 0 {
        return Err(KbError::invalid_config("operations.plan_retention_hours", "value must be greater than zero"));
    }
    Ok(())
}

/// A configuration file must declare the current schema.
pub open spec fn schema_checked(path: Seq<char>, version: Option<Seq<char>>) -> Result<(), Seq<char>> {
    match version {
        None => Err(config_message(path, "schema_version is required"@)),
        Some(v) => if v == current_schema() {
            Ok(())
        } else {
            Err(config_message(path, "schema "@ + v + " requires a compatibility workflow"@))
        },
    }
}

/// Check a file's declared schema (see `schema_checked`).
pub fn check_schema(path: &str, p: &PartialConfig) -> (r: Result<(), KbError>)
    ensures
        unit_result(r) == schema_checked(path@, crate::extract::opt_view(p.schema_version)),
        r matches Err(e) ==> e.code == ErrorCode::InvalidConfig,
{
    match &p.schema_version {
        None => Err(KbError::invalid_config(path, "schema_version is required")),
        Some(v) => {
            if is_key(v.as_str(), "v1.0") {
                Ok(())
            } else {
                let mut d = chars_of("schema ");
                append_chars(&mut d, chars_of(v.as_str()).as_slice());
                append_chars(&mut d, chars_of(" requires a compatibility workflow").as_slice());
                Err(KbError::invalid_config(path, string_of(d.as_slice()).as_str()))
            }
        },
    }
}

/// Only the Vault's own file may name the Vault.
pub fn reject_non_vault_identity(p: &PartialConfig, path: &str) -> (r: Result<(), KbError>)
    ensures
        r is Ok <==> p.vault_id is None,
        r matches Err(e) ==> e.code == ErrorCode::InvalidConfig && e.message@ == config_message(path@, "vault_id is owned by .kb/config.yml and cannot be overridden"@),
{
    if p.vault_id.is_some() {
        return Err(KbError::invalid_config(path, "vault_id is owned by .kb/config.yml and cannot be overridden"));
    }
    Ok(())
}

/// The effective configuration of parsed layers: the Vault's file must name
/// the Vault and the user and local files must not; the layers apply in
/// precedence order over the built-in values, then the environment and the
/// command line; the result must validate. The first failure is the error.
pub open spec fn effective(
    d: BuiltIn,
    user: PartialConfig,
    vault: PartialConfig,
    local: PartialConfig,
    env: Result<PartialConfig, Seq<char>>,
    cli: Result<PartialConfig, Seq<char>>,
) -> Result<EffectiveConfig, Seq<char>> {
    match vault.vault_id {
        None => Err(config_message(".kb/config.yml"@, "vault_id is required in Vault configuration"@)),
        Some(id) => if user.vault_id is Some {
            Err(config_message("user config"@, "vault_id is owned by .kb/config.yml and cannot be overridden"@))
        } else if local.vault_id is Some {
            Err(config_message(".kb/config.local.yml"@, "vault_id is owned by .kb/config.yml and cannot be overridden"@))
        } else {
            match env {
                Err(e) => Err(e),
                Ok(e) => match cli {
                    Err(c) => Err(c),
                    Ok(c) => {
                        let r = applied(applied(applied(applied(applied(built_in(id, d), user, ConfigSource::User), vault, ConfigSource::Vault), local, ConfigSource::VaultLocal), e, ConfigSource::Environment), c, ConfigSource::Cli);
                        match validated(r) {
                            Err(m) => Err(m),
                            Ok(()) => Ok(r),
                        }
                    },
                },
            }
        },
    }
}

/// Where the three configuration files are: the user's, the Vault's and the
/// Vault's local one, as their paths are shown in messages.
#[derive(Debug, Clone)]
pub struct ConfigFiles {
    pub user: String,
    pub vault: String,
    pub local: String,
}

/// A layer that sets nothing: an optional file that is absent.
pub open spec fn no_settings() -> PartialConfig {
    PartialConfig {
        schema_version: None,
        vault_id: None,
        search_mode: None,
        max_file_bytes: None,
        max_files_per_review: None,
        max_total_read_bytes: None,
        include_hidden: None,
        plan_retention_hours: None,
    }
}

pub open spec fn or_nothing(p: Option<PartialConfig>) -> PartialConfig {
    match p {
        Some(x) => x,
        None => no_settings(),
    }
}

/// The effective configuration of the files as read (the user's and the
/// local one may be absent): each file present must declare the current
/// schema, checked as the files are read (the user's, the Vault's, then,
/// once the Vault is named, the local one); then the layers merge as
/// `effective` says.
pub open spec fn loaded(
    d: BuiltIn,
    files: ConfigFiles,
    user: Option<PartialConfig>,
    vault: PartialConfig,
    local: Option<PartialConfig>,
    env: Result<PartialConfig, Seq<char>>,
    cli: Result<PartialConfig, Seq<char>>,
) -> Result<EffectiveConfig, Seq<char>> {
    if user matches Some(u) && schema_checked(files.user@, crate::extract::opt_view(u.schema_version)) is Err {
        Err(schema_checked(files.user@, crate::extract::opt_view(user->0.schema_version))->Err_0)
    } else if schema_checked(files.vault@, crate::extract::opt_view(vault.schema_version)) is Err {
        Err(schema_checked(files.vault@, crate::extract::opt_view(vault.schema_version))->Err_0)
    } else if vault.vault_id is None {
        Err(config_message(".kb/config.yml"@, "vault_id is required in Vault configuration"@))
    } else if local matches Some(l) && schema_checked(files.local@, crate::extract::opt_view(l.schema_version)) is Err {
        Err(schema_checked(files.local@, crate::extract::opt_view(local->0.schema_version))->Err_0)
    } else {
        effective(d, or_nothing(user), vault, or_nothing(local), env, cli)
    }
}

pub open spec fn config_result(r: Result<EffectiveConfig, KbError>) -> Result<EffectiveConfig, Seq<char>> {
    match r {
        Ok(c) => Ok(c),
        Err(e) => Err(e.message@),
    }
}

fn nothing() -> (p: PartialConfig)
    ensures
        p == no_settings(),
{
    PartialConfig {
        schema_version: None,
        vault_id: None,
        search_mode: None,
        max_file_bytes: None,
        max_files_per_review: None,
        max_total_read_bytes: None,
        include_hidden: None,
        plan_retention_hours: None,
    }
}

fn copy_text(o: &Option<String>) -> (c: Option<String>)
    ensures
        c == *o,
{
    match o {
        Some(t) => Some(t.clone()),
        None => None,
    }
}

fn copy_partial(p: &PartialConfig) -> (q: PartialConfig)
    ensures
        q == *p,
{
    PartialConfig {
        schema_version: copy_text(&p.schema_version),
        vault_id: copy_text(&p.vault_id),
        search_mode: p.search_mode,
        max_file_bytes: p.max_file_bytes,
        max_files_per_review: p.max_files_per_review,
        max_total_read_bytes: p.max_total_read_bytes,
        include_hidden: p.include_hidden,
        plan_retention_hours: p.plan_retention_hours,
    }
}

fn check_present(path: &str, p: &Option<PartialConfig>) -> (r: Result<(), KbError>)
    ensures
        r is Ok <==> !(p matches Some(x) && schema_checked(path@, crate::extract::opt_view(x.schema_version)) is Err),
        r matches Err(e) ==> e.code == ErrorCode::InvalidConfig && Err::<(), Seq<char>>(e.message@) == schema_checked(
            path@,
            crate::extract::opt_view(p->0.schema_version),
        ),
{
    match p {
        Some(x) => check_schema(path, x),
        None => Ok(()),
    }
}

/// Merge the files as read with the overrides (see `loaded`). Every error
/// is an invalid configuration.
pub fn load_effective_config(
    d: BuiltIn,
    files: &ConfigFiles,
    user: &Option<PartialConfig>,
    vault: &PartialConfig,
    local: &Option<PartialConfig>,
    overrides: &ConfigOverrides,
) -> (r: Result<EffectiveConfig, KbError>)
    ensures
        config_result(r) == loaded(
            d,
            *files,
            *user,
            *vault,
            *local,
            overrides_fold(environment_settings(env_views(overrides.environment@), environment_keys()), true),
            overrides_fold(env_views(overrides.cli@), false),
        ),
        r matches Err(e) ==> e.code == ErrorCode::InvalidConfig,
{
    check_present(files.user.as_str(), user)?;
    check_schema(files.vault.as_str(), vault)?;
    let vault_id = match &vault.vault_id {
        Some(id) => id.clone(),
        None => {
            return Err(KbError::invalid_config(".kb/config.yml", "vault_id is required in Vault configuration"));
        },
    };
    check_present(files.local.as_str(), local)?;
    let user = match user {
        Some(u) => copy_partial(u),
        None => nothing(),
    };
    let local = match local {
        Some(l) => copy_partial(l),
        None => nothing(),
    };
    let user = &user;
    let local = &local;
    reject_non_vault_identity(user, "user config")?;
    reject_non_vault_identity(local, ".kb/config.local.yml")?;
    let env = environment_layer(&overrides.environment)?;
    let cli = cli_layer(&overrides.cli)?;
    let base = EffectiveConfig {
        vault_id,
        search_mode: (d.search_mode, ConfigSource::BuiltIn),
        max_file_bytes: (d.max_file_bytes, ConfigSource::BuiltIn),
        max_files_per_review: (d.max_files_per_review, ConfigSource::BuiltIn),
        max_total_read_bytes: (d.max_total_read_bytes, ConfigSource::BuiltIn),
        include_hidden: (d.include_hidden, ConfigSource::BuiltIn),
        plan_retention_hours: (d.plan_retention_hours, ConfigSource::BuiltIn),
    };
    let c = apply(base, user, ConfigSource::User);
    let c = apply(c, vault, ConfigSource::Vault);
    let c = apply(c, local, ConfigSource::VaultLocal);
    let c = apply(c, &env, ConfigSource::Environment);
    let c = apply(c, &cli, ConfigSource::Cli);
    validate_effective(&c)?;
    Ok(c)
}

/// Validate every configuration source and count the admission entries:
/// valid when the configuration merges and the admission list was read.
pub fn config_validate(
    d: BuiltIn,
    files: &ConfigFiles,
    user: &Option<PartialConfig>,
    vault: &PartialConfig,
    local: &Option<PartialConfig>,
    overrides: &ConfigOverrides,
    admission_entries: Result<usize, KbError>,
) -> (r: Result<ValidationReport, KbError>)
    ensures
        match loaded(
            d,
            *files,
            *user,
            *vault,
            *local,
            overrides_fold(environment_settings(env_views(overrides.environment@), environment_keys()), true),
            overrides_fold(env_views(overrides.cli@), false),
        ) {
            Err(m) => r matches Err(e) && e.message@ == m && e.code == ErrorCode::InvalidConfig,
            Ok(_) => match admission_entries {
                Err(a) => r matches Err(e) && e.message@ == a.message@ && e.code == a.code,
                Ok(n) => r == Ok::<ValidationReport, KbError>(ValidationReport { valid: true, admission_entries: n }),
            },
        },
{
    load_effective_config(d, files, user, vault, local, overrides)?;
    let n = admission_entries?;
    Ok(ValidationReport { valid: true, admission_entries: n })
}

/// Which files may name the Vault: the Vault's own file must, the local and
/// user files must not.
pub fn check_candidate_identity(target: ConfigTarget, path: &str, candidate: &PartialConfig) -> (r: Result<(), KbError>)
    ensures
        r is Ok <==> (target == ConfigTarget::Vault) == (candidate.vault_id is Some),
        r matches Err(e) ==> e.code == ErrorCode::InvalidConfig && e.message@ == config_message(
            path@,
            if target == ConfigTarget::Vault {
                "vault_id is required in Vault configuration"@
            } else {
                "vault_id cannot be overridden outside .kb/config.yml"@
            },
        ),
{
    match target {
        ConfigTarget::Vault => {
            if candidate.vault_id.is_none() {
                return Err(KbError::invalid_config(path, "vault_id is required in Vault configuration"));
            }
        },
        ConfigTarget::Local | ConfigTarget::User => {
            if candidate.vault_id.is_some() {
                return Err(KbError::invalid_config(path, "vault_id cannot be overridden outside .kb/config.yml"));
            }
        },
    }
    Ok(())
}

/// The text a missing configuration file starts from.
pub fn initial_config_text() -> (t: String)
    ensures
        t@ == "schema_version: \"v1.0\"\n"@,
{
    "schema_version: \"v1.0\"\n".to_owned()
}

/// A configuration change: the file, its diff, and whether it is written.
pub fn config_change(path: &str, before: &str, after: &str, write: bool) -> (c: ConfigChange)
    ensures
        c.path@ == path@,
        c.diff@ == whole_diff(path@, before@, after@),
        c.written == write,
{
    ConfigChange { path: path.to_owned(), diff: line_diff(path, before, after), written: write }
}

} // verus!
