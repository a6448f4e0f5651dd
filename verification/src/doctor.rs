//! Diagnostic checks of a Vault and of the machine it is used on.
use vstd::prelude::*;
use crate::error::KbError;
use crate::text::{append_chars, chars_of, decimal, decimal_chars, join, join_chars, string_of, vviews};

verus! {

/// The outcome of one check.
#[derive(Debug, Clone, Copy, PartialEq, Eq, Structural)]
pub enum CheckStatus {
    Pass,
    Warn,
    Fail,
    NotChecked,
}

/// One diagnostic check.
#[derive(Debug, Clone)]
pub struct DoctorCheck {
    pub id: String,
    pub status: CheckStatus,
    pub message: String,
}

/// All checks of one Vault.
#[derive(Debug, Clone)]
pub struct DoctorReport {
    pub root: String,
    pub checks: Vec<DoctorCheck>,
}

/// A check from its parts.
fn check(id: &str, status: CheckStatus, message: Vec<char>) -> (c: DoctorCheck)
    ensures
        c.id@ == id@,
        c.status == status,
        c.message@ == message@,
{
    DoctorCheck { id: id.to_owned(), status, message: string_of(message.as_slice()) }
}

/// A check that passes when the operation succeeded and otherwise fails with
/// the error's message.
pub fn check_result(id: &str, result: Result<(), KbError>) -> (c: DoctorCheck)
    ensures
        c.id@ == id@,
        match result {
            Ok(()) => c.status == CheckStatus::Pass && c.message@ == "Check passed."@,
            Err(e) => c.status == CheckStatus::Fail && c.message@ == e.message@,
        },
{
    match result {
        Ok(()) => check(id, CheckStatus::Pass, chars_of("Check passed.")),
        Err(e) => check(id, CheckStatus::Fail, chars_of(e.message.as_str())),
    }
}

/// Whether a required path should be a file or a directory.
#[derive(Debug, Clone, Copy, PartialEq, Eq, Structural)]
pub enum RequiredPathKind {
    File,
    Directory,
}

pub open spec fn kind_word(k: RequiredPathKind) -> Seq<char> {
    match k {
        RequiredPathKind::File => "file"@,
        RequiredPathKind::Directory => "directory"@,
    }
}

/// What was found at a required path.
pub enum PathState {
    Present { is_symlink: bool, is_file: bool, is_dir: bool },
    Missing,
    Unreadable(String),
}

/// The paths every Vault must hold, with their kinds.
pub open spec fn required_paths() -> Seq<(Seq<char>, RequiredPathKind)> {
    seq![
        ("admission.yml"@, RequiredPathKind::File),
        ("KB.md"@, RequiredPathKind::File),
        ("Wiki"@, RequiredPathKind::Directory),
        ("Wiki/index.md"@, RequiredPathKind::File),
        ("Wiki/log.md"@, RequiredPathKind::File),
        ("Wiki/external-sources/.objects/sha256"@, RequiredPathKind::Directory),
        ("Wiki/research"@, RequiredPathKind::Directory),
        ("Wiki/articles"@, RequiredPathKind::Directory),
        (".kb"@, RequiredPathKind::Directory),
        (".kb/config.yml"@, RequiredPathKind::File),
        (".kb/schemas/admission.schema.json"@, RequiredPathKind::File),
        (".kb/schemas/config.schema.json"@, RequiredPathKind::File),
        (".kb/cache"@, RequiredPathKind::Directory),
        (".kb/runtime"@, RequiredPathKind::Directory),
    ]
}

/// The paths every Vault must hold (see `required_paths`).
pub fn required_vault_paths() -> (out: Vec<(String, RequiredPathKind)>)
    ensures
        out@.map_values(|p: (String, RequiredPathKind)| (p.0@, p.1)) == required_paths(),
{
    let list: [(&str, RequiredPathKind); 14] = [
        ("admission.yml", RequiredPathKind::File),
        ("KB.md", RequiredPathKind::File),
        ("Wiki", RequiredPathKind::Directory),
        ("Wiki/index.md", RequiredPathKind::File),
        ("Wiki/log.md", RequiredPathKind::File),
        ("Wiki/external-sources/.objects/sha256", RequiredPathKind::Directory),
        ("Wiki/research", RequiredPathKind::Directory),
        ("Wiki/articles", RequiredPathKind::Directory),
        (".kb", RequiredPathKind::Directory),
        (".kb/config.yml", RequiredPathKind::File),
        (".kb/schemas/admission.schema.json", RequiredPathKind::File),
        (".kb/schemas/config.schema.json", RequiredPathKind::File),
        (".kb/cache", RequiredPathKind::Directory),
        (".kb/runtime", RequiredPathKind::Directory),
    ];
    let mut out: Vec<(String, RequiredPathKind)> = Vec::new();
    let mut i: usize = 0;
    while i < 14
        invariant
            i <= 14,
            out@.len() == i,
            forall|k: int| 0 <= k < i ==> #[trigger] out@[k].0@ == list@[k].0@ && out@[k].1 == list@[k].1,
        decreases 14 - i,
    {
        out.push((list[i].0.to_owned(), list[i].1));
        i = i + 1;
    }
    proof {
        assert(out@.map_values(|p: (String, RequiredPathKind)| (p.0@, p.1)) =~= required_paths());
    }
    out
}

/// The finding for one required path, if any.
pub open spec fn path_finding(rel: Seq<char>, kind: RequiredPathKind, state: PathState) -> Option<Seq<char>> {
    match state {
        PathState::Present { is_symlink, is_file, is_dir } => if is_symlink {
            Some(rel + " is a symbolic link"@)
        } else if !(match kind { RequiredPathKind::File => is_file, RequiredPathKind::Directory => is_dir }) {
            Some(rel + " is not a "@ + kind_word(kind))
        } else {
            None
        },
        PathState::Missing => Some(rel + " is missing"@),
        PathState::Unreadable(e) => Some("cannot inspect "@ + rel + ": "@ + e@),
    }
}

/// The findings of all required paths, in order.
pub open spec fn structure_findings(entries: Seq<(String, RequiredPathKind, PathState)>) -> Seq<Seq<char>>
    decreases entries.len(),
{
    if entries.len() == 0 {
        Seq::empty()
    } else {
        let rest = structure_findings(entries.drop_last());
        let (rel, kind, state) = entries.last();
        match path_finding(rel@, kind, state) {
            Some(f) => rest.push(f),
            None => rest,
        }
    }
}

fn path_finding_exec(rel: &String, kind: RequiredPathKind, state: &PathState) -> (r: Option<Vec<char>>)
    ensures
        match r {
            Some(f) => path_finding(rel@, kind, *state) == Some(f@),
            None => path_finding(rel@, kind, *state) is None,
        },
{
    let mut m = chars_of(rel.as_str());
    match state {
        PathState::Present { is_symlink, is_file, is_dir } => {
            if *is_symlink {
                append_chars(&mut m, chars_of(" is a symbolic link").as_slice());
                Some(m)
            } else {
                let fits = match kind {
                    RequiredPathKind::File => *is_file,
                    RequiredPathKind::Directory => *is_dir,
                };
                if !fits {
                    append_chars(&mut m, chars_of(" is not a ").as_slice());
                    let w = match kind {
                        RequiredPathKind::File => chars_of("file"),
                        RequiredPathKind::Directory => chars_of("directory"),
                    };
                    append_chars(&mut m, w.as_slice());
                    Some(m)
                } else {
                    None
                }
            }
        },
        PathState::Missing => {
            append_chars(&mut m, chars_of(" is missing").as_slice());
            Some(m)
        },
        PathState::Unreadable(e) => {
            let mut out = chars_of("cannot inspect ");
            append_chars(&mut out, m.as_slice());
            append_chars(&mut out, chars_of(": ").as_slice());
            append_chars(&mut out, chars_of(e.as_str()).as_slice());
            Some(out)
        },
    }
}

/// The structure check: it passes when every required path is present with
/// its kind; otherwise it fails and lists what is wrong with each path.
pub fn vault_structure(entries: &Vec<(String, RequiredPathKind, PathState)>) -> (c: DoctorCheck)
    ensures
        c.id@ == "vault_structure"@,
        structure_findings(entries@).len() == 0 ==> c.status == CheckStatus::Pass
            && c.message@ == "All required Vault paths are present with the expected types."@,
        structure_findings(entries@).len() > 0 ==> c.status == CheckStatus::Fail
            && c.message@ == "Vault structure findings: "@ + join(structure_findings(entries@), "; "@) + "."@,
{
    let mut invalid: Vec<Vec<char>> = Vec::new();
    let mut i: usize = 0;
    proof {
        assert(entries@.take(0) =~= Seq::<(String, RequiredPathKind, PathState)>::empty());
        assert(vviews(invalid@) =~= Seq::<Seq<char>>::empty());
    }
    while i < entries.len()
        invariant
            i <= entries@.len(),
            vviews(invalid@) == structure_findings(entries@.take(i as int)),
        decreases entries@.len() - i,
    {
        proof {
            assert(entries@.take(i + 1).drop_last() =~= entries@.take(i as int));
            assert(entries@.take(i + 1).last() == entries@[i as int]);
        }
        let (rel, kind, state) = &entries[i];
        match path_finding_exec(rel, *kind, state) {
            Some(f) => {
                let ghost before = invalid@;
                invalid.push(f);
                proof {
                    assert(vviews(invalid@) =~= vviews(before).push(f@));
                }
            },
            None => {},
        }
        i = i + 1;
    }
    proof {
        assert(entries@.take(entries@.len() as int) =~= entries@);
    }
    if invalid.len() == 0 {
        check("vault_structure", CheckStatus::Pass, chars_of("All required Vault paths are present with the expected types."))
    } else {
        let mut m = chars_of("Vault structure findings: ");
        append_chars(&mut m, join_chars(&invalid, chars_of("; ").as_slice()).as_slice());
        append_chars(&mut m, chars_of(".").as_slice());
        check("vault_structure", CheckStatus::Fail, m)
    }
}

/// What was found at one machine runtime directory.
pub enum DirectoryProbe {
    /// It is there and writable.
    Ready,
    /// It does not exist yet.
    Absent,
    /// Something other than a directory is there.
    NotDirectory,
    /// It could not be inspected; the text says why.
    Uninspectable(String),
    /// It could be read but not written; the text says why.
    Unwritable(String),
}

/// Absent directories, failures and warnings of the runtime directories.
pub open spec fn runtime_scan(entries: Seq<(String, String, DirectoryProbe)>) -> (nat, Seq<Seq<char>>, Seq<Seq<char>>)
    decreases entries.len(),
{
    if entries.len() == 0 {
        (0, Seq::empty(), Seq::empty())
    } else {
        let (missing, failures, warnings) = runtime_scan(entries.drop_last());
        let (purpose, path, probe) = entries.last();
        match probe {
            DirectoryProbe::Ready => (missing, failures, warnings),
            DirectoryProbe::Absent => (missing + 1, failures, warnings),
            DirectoryProbe::NotDirectory => (missing, failures.push(purpose@ + " path is not a directory: "@ + path@), warnings),
            DirectoryProbe::Uninspectable(e) => (
                missing,
                failures.push("cannot inspect "@ + purpose@ + " directory "@ + path@ + ": "@ + e@),
                warnings,
            ),
            DirectoryProbe::Unwritable(e) => (
                missing,
                failures,
                warnings.push("cannot write to "@ + purpose@ + " directory "@ + path@ + ": "@ + e@),
            ),
        }
    }
}

/// `purpose: path` of each directory.
pub open spec fn locations(entries: Seq<(String, String, DirectoryProbe)>) -> Seq<Seq<char>> {
    entries.map_values(|e: (String, String, DirectoryProbe)| e.0@ + ": "@ + e.1@)
}

/// The runtime-directory check: it fails when some directory is unusable,
/// warns when one cannot be written, and passes otherwise; the message names
/// the directories and counts the absent ones, then gives the failures and
/// the warnings.
pub open spec fn runtime_check(entries: Seq<(String, String, DirectoryProbe)>) -> (CheckStatus, Seq<char>) {
    let (missing, failures, warnings) = runtime_scan(entries);
    let head = "Machine runtime directories ("@ + join(locations(entries), "; "@)
        + ") are created on demand; "@ + decimal(missing) + " path(s) are currently absent."@;
    (
        if failures.len() > 0 {
            CheckStatus::Fail
        } else if warnings.len() > 0 {
            CheckStatus::Warn
        } else {
            CheckStatus::Pass
        },
        join(seq![head] + failures + warnings, " "@),
    )
}

/// The check of the configuration, state and cache directories (see `runtime_check`).
pub fn machine_runtime_directories(entries: &Vec<(String, String, DirectoryProbe)>) -> (c: DoctorCheck)
    requires
        entries@.len() < u64::MAX,
    ensures
        c.id@ == "machine_runtime_directories"@,
        (c.status, c.message@) == runtime_check(entries@),
{
    let mut missing: u64 = 0;
    let mut failures: Vec<Vec<char>> = Vec::new();
    let mut warnings: Vec<Vec<char>> = Vec::new();
    let mut places: Vec<Vec<char>> = Vec::new();
    let mut i: usize = 0;
    proof {
        assert(entries@.take(0) =~= Seq::<(String, String, DirectoryProbe)>::empty());
        assert(vviews(failures@) =~= Seq::<Seq<char>>::empty());
        assert(vviews(warnings@) =~= Seq::<Seq<char>>::empty());
        assert(vviews(places@) =~= locations(entries@.take(0)));
    }
    while i < entries.len()
        invariant
            i <= entries@.len(),
            entries@.len() < u64::MAX,
            missing <= i,
            (missing as nat, vviews(failures@), vviews(warnings@)) == runtime_scan(entries@.take(i as int)),
            vviews(places@) == locations(entries@.take(i as int)),
        decreases entries@.len() - i,
    {
        proof {
            assert(entries@.take(i + 1).drop_last() =~= entries@.take(i as int));
            assert(entries@.take(i + 1).last() == entries@[i as int]);
        }
        let (purpose, path, probe) = &entries[i];
        let p = chars_of(purpose.as_str());
        let d = chars_of(path.as_str());
        let mut place = p.clone();
        append_chars(&mut place, chars_of(": ").as_slice());
        append_chars(&mut place, d.as_slice());
        let ghost pl = places@;
        places.push(place);
        proof {
            assert(vviews(places@) =~= vviews(pl).push(place@));
            assert(locations(entries@.take(i + 1)) =~= locations(entries@.take(i as int)).push(purpose@ + ": "@ + path@));
        }
        match probe {
            DirectoryProbe::Ready => {},
            DirectoryProbe::Absent => {
                missing = missing + 1;
            },
            DirectoryProbe::NotDirectory => {
                let mut m = p.clone();
                append_chars(&mut m, chars_of(" path is not a directory: ").as_slice());
                append_chars(&mut m, d.as_slice());
                let ghost before = failures@;
                failures.push(m);
                proof {
                    assert(vviews(failures@) =~= vviews(before).push(m@));
                }
            },
            DirectoryProbe::Uninspectable(e) => {
                let mut m = chars_of("cannot inspect ");
                append_chars(&mut m, p.as_slice());
                append_chars(&mut m, chars_of(" directory ").as_slice());
                append_chars(&mut m, d.as_slice());
                append_chars(&mut m, chars_of(": ").as_slice());
                append_chars(&mut m, chars_of(e.as_str()).as_slice());
                let ghost before = failures@;
                failures.push(m);
                proof {
                    assert(vviews(failures@) =~= vviews(before).push(m@));
                }
            },
            DirectoryProbe::Unwritable(e) => {
                let mut m = chars_of("cannot write to ");
                append_chars(&mut m, p.as_slice());
                append_chars(&mut m, chars_of(" directory ").as_slice());
                append_chars(&mut m, d.as_slice());
                append_chars(&mut m, chars_of(": ").as_slice());
                append_chars(&mut m, chars_of(e.as_str()).as_slice());
                let ghost before = warnings@;
                warnings.push(m);
                proof {
                    assert(vviews(warnings@) =~= vviews(before).push(m@));
                }
            },
        }
        i = i + 1;
    }
    proof {
        assert(entries@.take(entries@.len() as int) =~= entries@);
    }
    let mut head = chars_of("Machine runtime directories (");
    append_chars(&mut head, join_chars(&places, chars_of("; ").as_slice()).as_slice());
    append_chars(&mut head, chars_of(") are created on demand; ").as_slice());
    append_chars(&mut head, decimal_chars(missing).as_slice());
    append_chars(&mut head, chars_of(" path(s) are currently absent.").as_slice());
    let status = if failures.len() > 0 {
        CheckStatus::Fail
    } else if warnings.len() > 0 {
        CheckStatus::Warn
    } else {
        CheckStatus::Pass
    };
    let mut parts: Vec<Vec<char>> = Vec::new();
    parts.push(head);
    let ghost hv = vviews(parts@);
    let mut failures = failures;
    let mut warnings = warnings;
    let ghost fv = vviews(failures@);
    let ghost wv = vviews(warnings@);
    parts.append(&mut failures);
    parts.append(&mut warnings);
    proof {
        assert(hv =~= seq![head@]);
        assert(vviews(parts@) =~= hv + fv + wv);
        assert(runtime_scan(entries@).1 == fv);
        assert(runtime_scan(entries@).2 == wv);
        assert(head@ == "Machine runtime directories ("@ + join(locations(entries@), "; "@)
            + ") are created on demand; "@ + decimal(runtime_scan(entries@).0) + " path(s) are currently absent."@);
    }
    let message = join_chars(&parts, chars_of(" ").as_slice());
    check("machine_runtime_directories", status, message)
}

/// The writability check, given whether the root is marked read-only (or why
/// its metadata could not be read).
pub fn vault_writability(readonly: Result<bool, String>) -> (c: DoctorCheck)
    ensures
        c.id@ == "vault_writability"@,
        match readonly {
            Ok(true) => c.status == CheckStatus::Warn && c.message@ == "Vault root is marked read-only."@,
            Ok(false) => c.status == CheckStatus::Pass && c.message@ == "Vault root is not marked read-only."@,
            Err(e) => c.status == CheckStatus::Fail && c.message@ == e@,
        },
{
    match readonly {
        Ok(true) => check("vault_writability", CheckStatus::Warn, chars_of("Vault root is marked read-only.")),
        Ok(false) => check("vault_writability", CheckStatus::Pass, chars_of("Vault root is not marked read-only.")),
        Err(e) => check("vault_writability", CheckStatus::Fail, chars_of(e.as_str())),
    }
}

/// What is at the Vault's runtime directory.
pub enum RuntimeProbe {
    /// A directory; the lock probe ran with this outcome.
    Directory(Result<(), KbError>),
    /// Something other than a directory.
    NotDirectory,
    /// Nothing.
    Missing,
    /// It could not be inspected; the text says why.
    Uninspectable(String),
}

/// The lock check, given the runtime directory's path and what is there:
/// the lock probe's outcome for a directory, not checked when there is none,
/// a failure when it cannot be inspected.
pub fn lock_acquisition(runtime: &str, probe: RuntimeProbe) -> (c: DoctorCheck)
    ensures
        c.id@ == "lock_acquisition"@,
        match probe {
            RuntimeProbe::Directory(Ok(())) => c.status == CheckStatus::Pass && c.message@ == "Check passed."@,
            RuntimeProbe::Directory(Err(e)) => c.status == CheckStatus::Fail && c.message@ == e.message@,
            RuntimeProbe::NotDirectory => c.status == CheckStatus::NotChecked
                && c.message@ == "Lock probe skipped because Vault runtime path is not a directory: "@ + runtime@ + "."@,
            RuntimeProbe::Missing => c.status == CheckStatus::NotChecked
                && c.message@ == "Lock probe skipped because Vault runtime directory is missing: "@ + runtime@ + "."@,
            RuntimeProbe::Uninspectable(e) => c.status == CheckStatus::Fail
                && c.message@ == "Cannot inspect Vault runtime directory "@ + runtime@ + ": "@ + e@,
        },
{
    match probe {
        RuntimeProbe::Directory(r) => check_result("lock_acquisition", r),
        RuntimeProbe::NotDirectory => {
            let mut m = chars_of("Lock probe skipped because Vault runtime path is not a directory: ");
            append_chars(&mut m, chars_of(runtime).as_slice());
            append_chars(&mut m, chars_of(".").as_slice());
            check("lock_acquisition", CheckStatus::NotChecked, m)
        },
        RuntimeProbe::Missing => {
            let mut m = chars_of("Lock probe skipped because Vault runtime directory is missing: ");
            append_chars(&mut m, chars_of(runtime).as_slice());
            append_chars(&mut m, chars_of(".").as_slice());
            check("lock_acquisition", CheckStatus::NotChecked, m)
        },
        RuntimeProbe::Uninspectable(e) => {
            let mut m = chars_of("Cannot inspect Vault runtime directory ");
            append_chars(&mut m, chars_of(runtime).as_slice());
            append_chars(&mut m, chars_of(": ").as_slice());
            append_chars(&mut m, chars_of(e.as_str()).as_slice());
            check("lock_acquisition", CheckStatus::Fail, m)
        },
    }
}

/// The recovery check: it passes with no pending operation and warns otherwise.
pub fn recovery_records(pending: u64) -> (c: DoctorCheck)
    ensures
        c.id@ == "recovery_records"@,
        c.status == if pending == 0 { CheckStatus::Pass } else { CheckStatus::Warn },
        c.message@ == decimal(pending as nat) + " operation recovery record(s) are pending."@,
{
    let mut m = decimal_chars(pending);
    append_chars(&mut m, chars_of(" operation recovery record(s) are pending.").as_slice());
    check("recovery_records", if pending == 0 { CheckStatus::Pass } else { CheckStatus::Warn }, m)
}

/// The check of optional host integrations, which are never configured here.
pub fn optional_integrations() -> (c: DoctorCheck)
    ensures
        c.id@ == "optional_integrations"@,
        c.status == CheckStatus::NotChecked,
        c.message@ == "No optional host integration is configured in Stage 1."@,
{
    check("optional_integrations", CheckStatus::NotChecked, chars_of("No optional host integration is configured in Stage 1."))
}

/// How a Vault's schema relates to the one this version reads.
#[derive(Debug, Clone, Copy, PartialEq, Eq, Structural)]
pub enum SchemaCompatibility {
    Current,
    OlderUnsupported,
    OlderMigratable,
    NewerMinorReadOnly,
    NewerMajorDiagnosticOnly,
}

/// The name of a compatibility, as it is written in messages.
pub open spec fn compatibility_name(c: SchemaCompatibility) -> Seq<char> {
    match c {
        SchemaCompatibility::Current => "Current"@,
        SchemaCompatibility::OlderUnsupported => "OlderUnsupported"@,
        SchemaCompatibility::OlderMigratable => "OlderMigratable"@,
        SchemaCompatibility::NewerMinorReadOnly => "NewerMinorReadOnly"@,
        SchemaCompatibility::NewerMajorDiagnosticOnly => "NewerMajorDiagnosticOnly"@,
    }
}

/// The configuration check. A Vault whose identity cannot be read fails with
/// the reason; one of the current schema is checked by loading its
/// configuration (`loaded`); any other schema is only warned about, since
/// its fields are not interpreted.
pub fn configuration_check(
    identity: Result<(String, SchemaCompatibility), String>,
    current_schema: &str,
    loaded: Result<(), KbError>,
) -> (c: DoctorCheck)
    ensures
        c.id@ == "configuration"@,
        match identity {
            Err(reason) => c.status == CheckStatus::Fail && c.message@ == reason@,
            Ok((schema, compat)) => match compat {
                SchemaCompatibility::Current => match loaded {
                    Ok(()) => c.status == CheckStatus::Pass && c.message@ == "Check passed."@,
                    Err(e) => c.status == CheckStatus::Fail && c.message@ == e.message@,
                },
                SchemaCompatibility::OlderUnsupported => c.status == CheckStatus::Warn && c.message@ == "Schema "@ + schema@
                    + " has no migration path to "@ + current_schema@ + "; current fields were not interpreted."@,
                SchemaCompatibility::OlderMigratable => c.status == CheckStatus::Warn && c.message@ == "Schema "@ + schema@
                    + " has a migration path to "@ + current_schema@ + "; current fields were not interpreted."@,
                _ => c.status == CheckStatus::Warn && c.message@ == "Schema "@ + schema@ + " is "@ + compatibility_name(
                    compat,
                ) + "; current fields were not interpreted."@,
            },
        },
{
    match identity {
        Err(reason) => check("configuration", CheckStatus::Fail, chars_of(reason.as_str())),
        Ok((schema, compat)) => {
            let mut m = chars_of("Schema ");
            append_chars(&mut m, chars_of(schema.as_str()).as_slice());
            match compat {
                SchemaCompatibility::Current => check_result("configuration", loaded),
                SchemaCompatibility::OlderUnsupported => {
                    append_chars(&mut m, chars_of(" has no migration path to ").as_slice());
                    append_chars(&mut m, chars_of(current_schema).as_slice());
                    append_chars(&mut m, chars_of("; current fields were not interpreted.").as_slice());
                    check("configuration", CheckStatus::Warn, m)
                },
                SchemaCompatibility::OlderMigratable => {
                    append_chars(&mut m, chars_of(" has a migration path to ").as_slice());
                    append_chars(&mut m, chars_of(current_schema).as_slice());
                    append_chars(&mut m, chars_of("; current fields were not interpreted.").as_slice());
                    check("configuration", CheckStatus::Warn, m)
                },
                _ => {
                    let name = match compat {
                        SchemaCompatibility::NewerMinorReadOnly => "NewerMinorReadOnly",
                        _ => "NewerMajorDiagnosticOnly",
                    };
                    append_chars(&mut m, chars_of(" is ").as_slice());
                    append_chars(&mut m, chars_of(name).as_slice());
                    append_chars(&mut m, chars_of("; current fields were not interpreted.").as_slice());
                    check("configuration", CheckStatus::Warn, m)
                },
            }
        },
    }
}

} // verus!
