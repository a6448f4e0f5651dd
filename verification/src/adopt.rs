//! Adopting an existing directory as a Vault: the paths the tool must own,
//! the reviewed snapshot that must still hold, the files it generates, and
//! the progress an interrupted adoption may have recorded.
use vstd::prelude::*;
use crate::error::{config_message, ErrorCode, KbError};
use crate::source_io::{hash, hex_chars, sha256_digest};
use crate::text::{append_chars, chars_of, equal_chars, starts_with, starts_with_exec, string_of, views};
use crate::user_dirs::{join, join_path};

verus! {

/// The error of a reviewed path that changed before the plan was applied.
pub fn plan_stale(path: &str) -> (e: KbError)
    ensures
        e.code == ErrorCode::PlanStale,
        e.message@ == "Reviewed path changed: "@ + path@,
        !e.retryable,
        e.remediation@ == "Create and review a new adoption plan."@,
{
    let mut m = chars_of("Reviewed path changed: ");
    append_chars(&mut m, chars_of(path).as_slice());
    KbError::new(ErrorCode::PlanStale, string_of(m.as_slice()).as_str(), false, "Create and review a new adoption plan.")
}

/// The error of a path an interrupted adoption cannot safely restore.
pub fn recovery_error(path: &str, reason: &str) -> (e: KbError)
    ensures
        e.code == ErrorCode::VaultNeedsRecovery,
        e.message@ == "Cannot safely restore "@ + path@ + ": "@ + reason@,
        !e.retryable,
        e.remediation@ == "Inspect the exact path "@ + path@ + " before retrying."@,
{
    let mut m = chars_of("Cannot safely restore ");
    append_chars(&mut m, chars_of(path).as_slice());
    append_chars(&mut m, chars_of(": ").as_slice());
    append_chars(&mut m, chars_of(reason).as_slice());
    let mut r = chars_of("Inspect the exact path ");
    append_chars(&mut r, chars_of(path).as_slice());
    append_chars(&mut r, chars_of(" before retrying.").as_slice());
    KbError::new(ErrorCode::VaultNeedsRecovery, string_of(m.as_slice()).as_str(), false, string_of(r.as_slice()).as_str())
}

/// The paths an adoption creates and so must not find.
pub open spec fn owned_paths() -> Seq<Seq<char>> {
    seq![".kb"@, "admission.yml"@, "KB.md"@, "Wiki/index.md"@, "Wiki/log.md"@]
}

/// The paths an adoption creates (see `owned_paths`).
pub fn owned_path_list() -> (out: Vec<String>)
    ensures
        views(out@) == owned_paths(),
{
    let out = vec![
        ".kb".to_owned(),
        "admission.yml".to_owned(),
        "KB.md".to_owned(),
        "Wiki/index.md".to_owned(),
        "Wiki/log.md".to_owned(),
    ];
    proof {
        assert(views(out@) =~= owned_paths());
    }
    out
}

/// An adoption may not begin where one of the paths it creates exists: the
/// first one that exists (as `exists` says, one flag per owned path) is the
/// error.
pub fn reject_owned_collisions(target: &str, exists: &Vec<bool>) -> (r: Result<(), KbError>)
    requires
        exists@.len() == owned_paths().len(),
    ensures
        r is Ok <==> forall|i: int| 0 <= i < exists@.len() ==> !exists@[i],
        r matches Err(e) ==> e.code == ErrorCode::UnsafePath && !e.retryable && e.remediation@
            == "Move or rename the conflicting path, then review a new adoption plan."@ && exists|i: int|
            0 <= i < exists@.len() && exists@[i] && (forall|k: int| 0 <= k < i ==> !exists@[k]) && e.message@
                == "Cannot prove ownership of existing path "@ + join_path(target@, owned_paths()[i]) + "."@,
{
    let owned = owned_path_list();
    let mut i: usize = 0;
    while i < exists.len()
        invariant
            i <= exists@.len(),
            exists@.len() == owned_paths().len(),
            views(owned@) == owned_paths(),
            forall|k: int| 0 <= k < i ==> !exists@[k],
        decreases exists@.len() - i,
    {
        if exists[i] {
            let path = join(target, owned[i].as_str());
            let mut m = chars_of("Cannot prove ownership of existing path ");
            append_chars(&mut m, chars_of(path.as_str()).as_slice());
            append_chars(&mut m, chars_of(".").as_slice());
            proof {
                assert(owned_paths()[i as int] == owned@[i as int]@);
            }
            return Err(
                KbError::new(
                    ErrorCode::UnsafePath,
                    string_of(m.as_slice()).as_str(),
                    false,
                    "Move or rename the conflicting path, then review a new adoption plan.",
                ),
            );
        }
        i = i + 1;
    }
    Ok(())
}

/// What a reviewed entry was.
#[derive(Debug, Clone, Copy, PartialEq, Eq, Structural)]
pub enum ObservedKind {
    File,
    Directory,
}

/// An entry of the reviewed snapshot: its path, kind, and for a file its
/// size and SHA-256.
#[derive(Debug, Clone)]
pub struct ObservedEntry {
    pub relative_path: String,
    pub kind: ObservedKind,
    pub size: u64,
    pub sha256: Option<String>,
}

/// What is found at an entry's path now: whether it is a directory or a
/// file, its length, and (for a file) its SHA-256.
#[derive(Debug, Clone)]
pub struct EntryNow {
    pub is_dir: bool,
    pub is_file: bool,
    pub len: u64,
    pub sha256: Option<String>,
}

/// The entry is still as reviewed: the same kind, and for a file the same
/// size and digest.
pub open spec fn entry_holds(e: ObservedEntry, now: EntryNow) -> bool {
    match e.kind {
        ObservedKind::Directory => now.is_dir,
        ObservedKind::File => now.is_file && now.len == e.size && crate::extract::opt_view(now.sha256)
            == crate::extract::opt_view(e.sha256),
    }
}

/// Check the reviewed snapshot against what is found now; the first entry
/// that no longer holds is reported by its path under `root`.
pub fn verify_observed_entries(root: &str, entries: &Vec<ObservedEntry>, now: &Vec<EntryNow>) -> (r: Result<(), KbError>)
    requires
        now@.len() == entries@.len(),
    ensures
        r is Ok <==> forall|i: int| 0 <= i < entries@.len() ==> entry_holds(#[trigger] entries@[i], now@[i]),
        r matches Err(e) ==> e.code == ErrorCode::PlanStale && exists|i: int|
            0 <= i < entries@.len() && !entry_holds(entries@[i], now@[i]) && (forall|k: int|
                0 <= k < i ==> entry_holds(#[trigger] entries@[k], now@[k])) && e.message@ == "Reviewed path changed: "@
                + join_path(root@, entries@[i].relative_path@),
{
    let mut i: usize = 0;
    while i < entries.len()
        invariant
            i <= entries@.len(),
            now@.len() == entries@.len(),
            forall|k: int| 0 <= k < i ==> entry_holds(#[trigger] entries@[k], now@[k]),
        decreases entries@.len() - i,
    {
        let e = &entries[i];
        let n = &now[i];
        let holds = match e.kind {
            ObservedKind::Directory => n.is_dir,
            ObservedKind::File => n.is_file && n.len == e.size && match (&n.sha256, &e.sha256) {
                (Some(a), Some(b)) => equal_chars(chars_of(a.as_str()).as_slice(), chars_of(b.as_str()).as_slice()),
                (None, None) => true,
                _ => false,
            },
        };
        if !holds {
            return Err(plan_stale(join(root, e.relative_path.as_str()).as_str()));
        }
        i = i + 1;
    }
    Ok(())
}

/// A file an adoption creates: its path, size and SHA-256.
#[derive(Debug, Clone)]
pub struct PlannedFile {
    pub relative_path: String,
    pub size: u64,
    pub sha256: String,
}

/// The planned file of generated bytes.
pub open spec fn planned_for(path: Seq<char>, bytes: Seq<u8>, f: PlannedFile) -> bool {
    f.relative_path@ == path && f.size == bytes.len() && f.sha256@ == hex_chars(sha256_digest(bytes))
}

/// The planned files of the generated files, in order.
pub fn planned_files(generated: &Vec<(String, Vec<u8>)>) -> (out: Vec<PlannedFile>)
    ensures
        out@.len() == generated@.len(),
        forall|i: int| 0 <= i < out@.len() ==> planned_for(generated@[i].0@, generated@[i].1@, #[trigger] out@[i]),
{
    let mut out: Vec<PlannedFile> = Vec::new();
    let mut i: usize = 0;
    while i < generated.len()
        invariant
            i <= generated@.len(),
            out@.len() == i,
            forall|k: int| 0 <= k < i ==> planned_for(generated@[k].0@, generated@[k].1@, #[trigger] out@[k]),
        decreases generated@.len() - i,
    {
        let (p, b) = &generated[i];
        out.push(PlannedFile { relative_path: p.clone(), size: b.len() as u64, sha256: hash(b.as_slice()) });
        i = i + 1;
    }
    out
}

/// A plan's files are exactly those this version generates, in order.
pub fn verify_planned_files(creates: &Vec<PlannedFile>, generated: &Vec<(String, Vec<u8>)>) -> (r: Result<(), KbError>)
    ensures
        r is Ok <==> creates@.len() == generated@.len() && forall|i: int|
            0 <= i < creates@.len() ==> planned_for(generated@[i].0@, generated@[i].1@, #[trigger] creates@[i]),
        r matches Err(e) ==> e.code == ErrorCode::InvalidConfig && e.message@ == config_message(
            "operation plan"@,
            "planned generated bytes do not match this application version"@,
        ),
{
    let actual = planned_files(generated);
    if actual.len() != creates.len() {
        return Err(plan_mismatch());
    }
    let mut i: usize = 0;
    while i < creates.len()
        invariant
            i <= creates@.len(),
            actual@.len() == creates@.len(),
            actual@.len() == generated@.len(),
            forall|k: int| 0 <= k < actual@.len() ==> planned_for(generated@[k].0@, generated@[k].1@, #[trigger] actual@[k]),
            forall|k: int| 0 <= k < i ==> planned_for(generated@[k].0@, generated@[k].1@, #[trigger] creates@[k]),
        decreases creates@.len() - i,
    {
        let a = &actual[i];
        let c = &creates[i];
        if !equal_chars(chars_of(a.relative_path.as_str()).as_slice(), chars_of(c.relative_path.as_str()).as_slice())
            || a.size != c.size || !equal_chars(chars_of(a.sha256.as_str()).as_slice(), chars_of(c.sha256.as_str()).as_slice()) {
            proof {
                assert(planned_for(generated@[i as int].0@, generated@[i as int].1@, actual@[i as int]));
            }
            return Err(plan_mismatch());
        }
        i = i + 1;
    }
    Ok(())
}

fn plan_mismatch() -> (e: KbError)
    ensures
        e.code == ErrorCode::InvalidConfig,
        e.message@ == config_message("operation plan"@, "planned generated bytes do not match this application version"@),
{
    KbError::invalid_config("operation plan", "planned generated bytes do not match this application version")
}

fn progress_mismatch() -> (e: KbError)
    ensures
        e.code == ErrorCode::InvalidConfig,
        e.message@ == config_message("operation progress"@, "progress does not match the adoption plan"@),
{
    KbError::invalid_config("operation progress", "progress does not match the adoption plan")
}

/// The directories an adoption creates, empty or not.
pub open spec fn empty_directories() -> Seq<Seq<char>> {
    seq!["Wiki/external-sources/.objects/sha256"@, "Wiki/research"@, "Wiki/articles"@, ".kb/cache"@, ".kb/runtime"@]
}

/// The directories an adoption creates (see `empty_directories`).
pub fn empty_directory_list() -> (out: Vec<String>)
    ensures
        views(out@) == empty_directories(),
{
    let out = vec![
        "Wiki/external-sources/.objects/sha256".to_owned(),
        "Wiki/research".to_owned(),
        "Wiki/articles".to_owned(),
        ".kb/cache".to_owned(),
        ".kb/runtime".to_owned(),
    ];
    proof {
        assert(views(out@) =~= empty_directories());
    }
    out
}

/// `d` is a directory above `f`.
pub open spec fn above(d: Seq<char>, f: Seq<char>) -> bool {
    d.len() > 0 && starts_with(f, d + seq!['/'])
}

/// A directory an adoption may create: one above a generated file, or one of
/// its own directories or one above it.
pub open spec fn allowed_directory(d: Seq<char>, generated: Seq<Seq<char>>, empties: Seq<Seq<char>>) -> bool {
    (exists|i: int| 0 <= i < generated.len() && above(d, #[trigger] generated[i])) || (exists|j: int|
        0 <= j < empties.len() && (d == #[trigger] empties[j] || above(d, empties[j])))
}

/// What an interrupted adoption recorded: its operation, its staging
/// directory, the files it installed and the directories it created.
#[derive(Debug, Clone)]
pub struct ApplyProgress {
    pub operation_id: String,
    pub stage: String,
    pub installed_files: Vec<String>,
    pub created_directories: Vec<String>,
}

/// The staging directory of an adoption.
pub open spec fn stage_of(target: Seq<char>, operation_id: Seq<char>) -> Seq<char> {
    join_path(target, ".kb-adopt-"@ + operation_id)
}

/// Recorded progress belongs to the plan: same operation, its staging
/// directory, and only generated files and allowed directories.
pub open spec fn progress_matches(
    p: ApplyProgress,
    operation_id: Seq<char>,
    target: Seq<char>,
    generated: Seq<Seq<char>>,
) -> bool {
    &&& p.operation_id@ == operation_id
    &&& crate::registry::same_path(p.stage@, stage_of(target, operation_id))
    &&& forall|i: int| 0 <= i < p.installed_files@.len() ==> generated.contains(#[trigger] p.installed_files@[i]@)
    &&& forall|i: int|
        0 <= i < p.created_directories@.len() ==> allowed_directory(
            #[trigger] p.created_directories@[i]@,
            generated,
            empty_directories(),
        )
}

fn is_above(d: &str, f: &str) -> (b: bool)
    ensures
        b == above(d@, f@),
{
    let mut p = chars_of(d);
    if p.len() == 0 {
        return false;
    }
    p.push('/');
    proof {
        assert(p@ =~= d@ + seq!['/']);
    }
    starts_with_exec(chars_of(f).as_slice(), p.as_slice())
}

fn is_allowed_directory(d: &str, generated: &Vec<String>, empties: &Vec<String>) -> (b: bool)
    ensures
        b == allowed_directory(d@, views(generated@), views(empties@)),
{
    let ghost gv = views(generated@);
    let ghost ev = views(empties@);
    let mut i: usize = 0;
    while i < generated.len()
        invariant
            i <= generated@.len(),
            gv == views(generated@),
            forall|k: int| 0 <= k < i ==> !above(d@, #[trigger] gv[k]),
        decreases generated@.len() - i,
    {
        if is_above(d, generated[i].as_str()) {
            proof {
                assert(above(d@, gv[i as int]));
            }
            return true;
        }
        i = i + 1;
    }
    let mut j: usize = 0;
    while j < empties.len()
        invariant
            j <= empties@.len(),
            gv == views(generated@),
            ev == views(empties@),
            forall|k: int| 0 <= k < generated@.len() ==> !above(d@, #[trigger] gv[k]),
            forall|k: int| 0 <= k < j ==> !(d@ == #[trigger] ev[k] || above(d@, ev[k])),
        decreases empties@.len() - j,
    {
        if equal_chars(chars_of(d).as_slice(), chars_of(empties[j].as_str()).as_slice()) || is_above(
            d,
            empties[j].as_str(),
        ) {
            proof {
                assert(d@ == ev[j as int] || above(d@, ev[j as int]));
            }
            return true;
        }
        j = j + 1;
    }
    false
}

fn is_listed(v: &Vec<String>, s: &str) -> (b: bool)
    ensures
        b == views(v@).contains(s@),
{
    let ghost vv = views(v@);
    let mut j: usize = 0;
    while j < v.len()
        invariant
            j <= v@.len(),
            vv == views(v@),
            forall|k: int| 0 <= k < j ==> vv[k] != s@,
        decreases v@.len() - j,
    {
        if equal_chars(chars_of(v[j].as_str()).as_slice(), chars_of(s).as_slice()) {
            proof {
                assert(vv[j as int] == s@);
            }
            return true;
        }
        j = j + 1;
    }
    false
}

/// Check that recorded progress belongs to the plan (see
/// `progress_matches`), given the paths of the generated files.
pub fn validate_adoption_progress(
    progress: &ApplyProgress,
    operation_id: &str,
    target: &str,
    generated: &Vec<String>,
) -> (r: Result<(), KbError>)
    ensures
        r is Ok <==> progress_matches(*progress, operation_id@, target@, views(generated@)),
        r matches Err(e) ==> e.code == ErrorCode::InvalidConfig && e.message@ == config_message(
            "operation progress"@,
            "progress does not match the adoption plan"@,
        ),
{
    let empties = empty_directory_list();
    let mut stage = chars_of(".kb-adopt-");
    append_chars(&mut stage, chars_of(operation_id).as_slice());
    let expected_stage = join(target, string_of(stage.as_slice()).as_str());
    if !equal_chars(chars_of(progress.operation_id.as_str()).as_slice(), chars_of(operation_id).as_slice())
        || !crate::registry::paths_equal(progress.stage.as_str(), expected_stage.as_str()) {
        return Err(progress_mismatch());
    }
    let mut i: usize = 0;
    while i < progress.installed_files.len()
        invariant
            i <= progress.installed_files@.len(),
            forall|k: int| 0 <= k < i ==> views(generated@).contains(#[trigger] progress.installed_files@[k]@),
        decreases progress.installed_files@.len() - i,
    {
        if !is_listed(generated, progress.installed_files[i].as_str()) {
            return Err(progress_mismatch());
        }
        i = i + 1;
    }
    let mut j: usize = 0;
    while j < progress.created_directories.len()
        invariant
            j <= progress.created_directories@.len(),
            views(empties@) == empty_directories(),
            forall|k: int|
                0 <= k < j ==> allowed_directory(
                    #[trigger] progress.created_directories@[k]@,
                    views(generated@),
                    empty_directories(),
                ),
        decreases progress.created_directories@.len() - j,
    {
        if !is_allowed_directory(progress.created_directories[j].as_str(), generated, &empties) {
            return Err(progress_mismatch());
        }
        j = j + 1;
    }
    Ok(())
}

/// Where the apply of an adoption stands.
#[derive(Debug, Clone, Copy, PartialEq, Eq, Structural)]
pub enum AdoptStage {
    Start,
    Starting,
    Receipt,
    Files,
    Progress,
    Recovering,
    Snapshot,
    Installing,
    Verifying,
    Finishing,
    Completing,
    Done,
}

/// What the loop around an adoption observed after its last action.
pub enum AdoptEvent {
    /// The operation was loaded: whether it was already applied, and the
    /// check of the plan's identity.
    Loaded { applied: bool, identity: Result<(), KbError> },
    /// The event the last action asked for was recorded.
    Recorded,
    /// The Vault's receipt was looked for: none, or the check of the stored
    /// result against the plan.
    ReceiptRead(Option<Result<(), KbError>>),
    /// The check of the generated files against the plan.
    FilesChecked(Result<(), KbError>),
    /// Stored progress was looked for: none, or its check and whether the
    /// generated files are all in place.
    ProgressRead(Option<(Result<(), KbError>, bool)>),
    /// The interrupted adoption was recovered.
    Recovered,
    /// The target was listed again: whether it still matches the reviewed
    /// listing.
    Snapshotted { unchanged: bool },
    /// The generated files were staged and installed, or what failed.
    Installed(Result<(), KbError>),
    /// Whether every generated file passed the final check.
    Verified { complete: bool },
    /// The reviewed entries were checked and the adoption finished.
    Finished(Result<(), KbError>),
    /// An outside step failed.
    Failed(KbError),
}

/// What the loop around an adoption does next.
pub enum AdoptAction {
    /// Record the adoption as complete (it was already applied).
    RecordComplete,
    RecordStart,
    ReadReceipt,
    /// Save the stored result and record the adoption as complete.
    SaveReceiptResult,
    CheckFiles,
    ReadProgress,
    /// Record the recovery and restore the interrupted install.
    Recover,
    Snapshot,
    Install,
    /// Roll the install back (or leave it for recovery) and stop with the error.
    RollBack(KbError),
    VerifyFinal,
    /// Check the reviewed entries, register the Vault and record the result.
    Finish,
    Complete,
    Fail(KbError),
}

pub enum AdoptView {
    RecordComplete,
    RecordStart,
    ReadReceipt,
    SaveReceiptResult,
    CheckFiles,
    ReadProgress,
    Recover,
    Snapshot,
    Install,
    RollBack(ErrorCode, Seq<char>, Seq<char>),
    VerifyFinal,
    Finish,
    Complete,
    Fail(ErrorCode, Seq<char>, Seq<char>),
}

pub open spec fn adopt_view(a: AdoptAction) -> AdoptView {
    match a {
        AdoptAction::RecordComplete => AdoptView::RecordComplete,
        AdoptAction::RecordStart => AdoptView::RecordStart,
        AdoptAction::ReadReceipt => AdoptView::ReadReceipt,
        AdoptAction::SaveReceiptResult => AdoptView::SaveReceiptResult,
        AdoptAction::CheckFiles => AdoptView::CheckFiles,
        AdoptAction::ReadProgress => AdoptView::ReadProgress,
        AdoptAction::Recover => AdoptView::Recover,
        AdoptAction::Snapshot => AdoptView::Snapshot,
        AdoptAction::Install => AdoptView::Install,
        AdoptAction::RollBack(e) => AdoptView::RollBack(e.code, e.message@, e.remediation@),
        AdoptAction::VerifyFinal => AdoptView::VerifyFinal,
        AdoptAction::Finish => AdoptView::Finish,
        AdoptAction::Complete => AdoptView::Complete,
        AdoptAction::Fail(e) => AdoptView::Fail(e.code, e.message@, e.remediation@),
    }
}

pub open spec fn adopt_fail(e: KbError) -> (AdoptStage, AdoptView) {
    (AdoptStage::Done, AdoptView::Fail(e.code, e.message@, e.remediation@))
}

pub open spec fn adopt_out_of_order() -> (AdoptStage, AdoptView) {
    (AdoptStage::Done, AdoptView::Fail(
        ErrorCode::VaultNeedsRecovery,
        "Adoption steps are out of order."@,
        "Retry the recorded kb apply operation; preserve files changed by other writers."@,
    ))
}

/// The next stage and action of applying adoption `id` to `target` after
/// `event`: an applied operation is only recorded as complete; otherwise
/// the plan's identity must hold and the start is recorded; a stored Vault
/// receipt that matches the plan completes it; the generated files must
/// match the plan; stored progress must be sound, and then a complete
/// install is finished, an incomplete one recovered; the target must still
/// match the reviewed listing (else the plan is stale); the install is
/// rolled back on failure, and every generated file must pass the final
/// check before the reviewed entries are checked and the adoption finished.
pub open spec fn adopt_next(id: Seq<char>, target: Seq<char>, stage: AdoptStage, event: AdoptEvent) -> (AdoptStage, AdoptView) {
    match event {
        AdoptEvent::Failed(e) => adopt_fail(e),
        AdoptEvent::Loaded { applied, identity } => if stage != AdoptStage::Start {
            adopt_out_of_order()
        } else if applied {
            (AdoptStage::Completing, AdoptView::RecordComplete)
        } else {
            match identity {
                Err(e) => adopt_fail(e),
                Ok(()) => (AdoptStage::Starting, AdoptView::RecordStart),
            }
        },
        AdoptEvent::Recorded => if stage == AdoptStage::Starting {
            (AdoptStage::Receipt, AdoptView::ReadReceipt)
        } else if stage == AdoptStage::Completing {
            (AdoptStage::Done, AdoptView::Complete)
        } else {
            adopt_out_of_order()
        },
        AdoptEvent::ReceiptRead(r) => if stage != AdoptStage::Receipt {
            adopt_out_of_order()
        } else {
            match r {
                Some(Err(e)) => adopt_fail(e),
                Some(Ok(())) => (AdoptStage::Completing, AdoptView::SaveReceiptResult),
                None => (AdoptStage::Files, AdoptView::CheckFiles),
            }
        },
        AdoptEvent::FilesChecked(r) => if stage != AdoptStage::Files {
            adopt_out_of_order()
        } else {
            match r {
                Err(e) => adopt_fail(e),
                Ok(()) => (AdoptStage::Progress, AdoptView::ReadProgress),
            }
        },
        AdoptEvent::ProgressRead(p) => if stage != AdoptStage::Progress {
            adopt_out_of_order()
        } else {
            match p {
                None => (AdoptStage::Snapshot, AdoptView::Snapshot),
                Some((Err(e), _)) => adopt_fail(e),
                Some((Ok(()), true)) => (AdoptStage::Finishing, AdoptView::Finish),
                Some((Ok(()), false)) => (AdoptStage::Recovering, AdoptView::Recover),
            }
        },
        AdoptEvent::Recovered => if stage == AdoptStage::Recovering {
            (AdoptStage::Snapshot, AdoptView::Snapshot)
        } else {
            adopt_out_of_order()
        },
        AdoptEvent::Snapshotted { unchanged } => if stage != AdoptStage::Snapshot {
            adopt_out_of_order()
        } else if !unchanged {
            (AdoptStage::Done, AdoptView::Fail(
                ErrorCode::PlanStale,
                "Adoption target changed after operation "@ + id + " was reviewed."@,
                "Run kb adopt "@ + target + " again."@,
            ))
        } else {
            (AdoptStage::Installing, AdoptView::Install)
        },
        AdoptEvent::Installed(r) => if stage != AdoptStage::Installing {
            adopt_out_of_order()
        } else {
            match r {
                Err(e) => (AdoptStage::Done, AdoptView::RollBack(e.code, e.message@, e.remediation@)),
                Ok(()) => (AdoptStage::Verifying, AdoptView::VerifyFinal),
            }
        },
        AdoptEvent::Verified { complete } => if stage != AdoptStage::Verifying {
            adopt_out_of_order()
        } else if !complete {
            (AdoptStage::Done, AdoptView::Fail(
                ErrorCode::VaultNeedsRecovery,
                "Cannot safely restore "@ + target + ": "@ + "generated files did not pass final verification"@,
                "Inspect the exact path "@ + target + " before retrying."@,
            ))
        } else {
            (AdoptStage::Finishing, AdoptView::Finish)
        },
        AdoptEvent::Finished(r) => if stage != AdoptStage::Finishing {
            adopt_out_of_order()
        } else {
            match r {
                Err(e) => adopt_fail(e),
                Ok(()) => (AdoptStage::Done, AdoptView::Complete),
            }
        },
    }
}

fn adopt_out_of_order_exec() -> (r: (AdoptStage, AdoptAction))
    ensures
        (r.0, adopt_view(r.1)) == adopt_out_of_order(),
{
    (AdoptStage::Done, AdoptAction::Fail(KbError::new(
        ErrorCode::VaultNeedsRecovery,
        "Adoption steps are out of order.",
        false,
        "Retry the recorded kb apply operation; preserve files changed by other writers.",
    )))
}

/// One step of applying adoption `id` to `target` (see `adopt_next`): the
/// loop starts at `AdoptStage::Start` by locking and loading the operation,
/// performs each action and hands back what it observed.
pub fn adopt_step(id: &str, target: &str, stage: AdoptStage, event: AdoptEvent) -> (r: (AdoptStage, AdoptAction))
    ensures
        (r.0, adopt_view(r.1)) == adopt_next(id@, target@, stage, event),
{
    match event {
        AdoptEvent::Failed(e) => (AdoptStage::Done, AdoptAction::Fail(e)),
        AdoptEvent::Loaded { applied, identity } => {
            if stage != AdoptStage::Start {
                adopt_out_of_order_exec()
            } else if applied {
                (AdoptStage::Completing, AdoptAction::RecordComplete)
            } else {
                match identity {
                    Err(e) => (AdoptStage::Done, AdoptAction::Fail(e)),
                    Ok(()) => (AdoptStage::Starting, AdoptAction::RecordStart),
                }
            }
        },
        AdoptEvent::Recorded => {
            if stage == AdoptStage::Starting {
                (AdoptStage::Receipt, AdoptAction::ReadReceipt)
            } else if stage == AdoptStage::Completing {
                (AdoptStage::Done, AdoptAction::Complete)
            } else {
                adopt_out_of_order_exec()
            }
        },
        AdoptEvent::ReceiptRead(r) => {
            if stage != AdoptStage::Receipt {
                adopt_out_of_order_exec()
            } else {
                match r {
                    Some(Err(e)) => (AdoptStage::Done, AdoptAction::Fail(e)),
                    Some(Ok(())) => (AdoptStage::Completing, AdoptAction::SaveReceiptResult),
                    None => (AdoptStage::Files, AdoptAction::CheckFiles),
                }
            }
        },
        AdoptEvent::FilesChecked(r) => {
            if stage != AdoptStage::Files {
                adopt_out_of_order_exec()
            } else {
                match r {
                    Err(e) => (AdoptStage::Done, AdoptAction::Fail(e)),
                    Ok(()) => (AdoptStage::Progress, AdoptAction::ReadProgress),
                }
            }
        },
        AdoptEvent::ProgressRead(p) => {
            if stage != AdoptStage::Progress {
                adopt_out_of_order_exec()
            } else {
                match p {
                    None => (AdoptStage::Snapshot, AdoptAction::Snapshot),
                    Some((Err(e), _)) => (AdoptStage::Done, AdoptAction::Fail(e)),
                    Some((Ok(()), true)) => (AdoptStage::Finishing, AdoptAction::Finish),
                    Some((Ok(()), false)) => (AdoptStage::Recovering, AdoptAction::Recover),
                }
            }
        },
        AdoptEvent::Recovered => {
            if stage == AdoptStage::Recovering {
                (AdoptStage::Snapshot, AdoptAction::Snapshot)
            } else {
                adopt_out_of_order_exec()
            }
        },
        AdoptEvent::Snapshotted { unchanged } => {
            if stage != AdoptStage::Snapshot {
                adopt_out_of_order_exec()
            } else if !unchanged {
                let mut m = chars_of("Adoption target changed after operation ");
                append_chars(&mut m, chars_of(id).as_slice());
                append_chars(&mut m, chars_of(" was reviewed.").as_slice());
                let mut r = chars_of("Run kb adopt ");
                append_chars(&mut r, chars_of(target).as_slice());
                append_chars(&mut r, chars_of(" again.").as_slice());
                let e = KbError::new(ErrorCode::PlanStale, string_of(m.as_slice()).as_str(), false, string_of(r.as_slice()).as_str());
                (AdoptStage::Done, AdoptAction::Fail(e))
            } else {
                (AdoptStage::Installing, AdoptAction::Install)
            }
        },
        AdoptEvent::Installed(r) => {
            if stage != AdoptStage::Installing {
                adopt_out_of_order_exec()
            } else {
                match r {
                    Err(e) => (AdoptStage::Done, AdoptAction::RollBack(e)),
                    Ok(()) => (AdoptStage::Verifying, AdoptAction::VerifyFinal),
                }
            }
        },
        AdoptEvent::Verified { complete } => {
            if stage != AdoptStage::Verifying {
                adopt_out_of_order_exec()
            } else if !complete {
                (AdoptStage::Done, AdoptAction::Fail(recovery_error(target, "generated files did not pass final verification")))
            } else {
                (AdoptStage::Finishing, AdoptAction::Finish)
            }
        },
        AdoptEvent::Finished(r) => {
            if stage != AdoptStage::Finishing {
                adopt_out_of_order_exec()
            } else {
                match r {
                    Err(e) => (AdoptStage::Done, AdoptAction::Fail(e)),
                    Ok(()) => (AdoptStage::Done, AdoptAction::Complete),
                }
            }
        },
    }
}

} // verus!
