//! Planning a Vault template update from a recorded ownership manifest:
//! which product files are rewritten, which stay, and which conflict.
use vstd::prelude::*;
use vstd::utf8::encode_utf8;
use crate::knowledge_apply::digest_of;
use crate::source_io::hash;
use crate::template::{lf_text, parse_managed_rules, replace_rules, rules_end, rules_region, rules_start, text_equal, with_rules};
use crate::text::{append_chars, chars_of, equal_chars, string_of, views};

verus! {

/// How a managed template file is owned: only its marked rules region, or whole.
#[derive(Debug, Clone, Copy, PartialEq, Eq, Structural)]
pub enum TemplateOwnership {
    MarkedRegion,
    WholeFile,
}

/// One entry of a recorded template manifest: the path, how it is owned and
/// the SHA-256 of its owned content at installation.
pub struct ManagedTemplateRecord {
    pub path: String,
    pub ownership: TemplateOwnership,
    pub sha256: String,
}

/// One file of this build's template: its path, the SHA-256 its manifest
/// records, its content, and the file as the Vault holds it now (none when
/// missing).
pub struct TemplateTarget {
    pub path: String,
    pub sha256: String,
    pub content: String,
    pub current: Option<String>,
}

/// A planned write: the digest of the file before (none when it is
/// created), the digest of the content and the content.
pub struct TemplateWrite {
    pub path: String,
    pub before_sha256: Option<String>,
    pub after_sha256: String,
    pub content: String,
}

/// A file the plan must not touch, why, and what to do about it.
pub struct TemplateConflict {
    pub path: String,
    pub reason: String,
    pub next_action: String,
}

/// The writes, unchanged paths and conflicts of a template plan, in the
/// order of the build's template.
pub struct ManifestPlan {
    pub writes: Vec<TemplateWrite>,
    pub unchanged: Vec<String>,
    pub conflicts: Vec<TemplateConflict>,
}

pub struct RecordView {
    pub path: Seq<char>,
    pub ownership: TemplateOwnership,
    pub sha256: Seq<char>,
}

pub struct TargetView {
    pub path: Seq<char>,
    pub sha256: Seq<char>,
    pub content: Seq<char>,
    pub current: Option<Seq<char>>,
}

pub struct TemplateWriteView {
    pub path: Seq<char>,
    pub before_sha256: Option<Seq<char>>,
    pub after_sha256: Seq<char>,
    pub content: Seq<char>,
}

pub struct ConflictView {
    pub path: Seq<char>,
    pub reason: Seq<char>,
    pub next_action: Seq<char>,
}

#[verifier::ext_equal]
pub struct ManifestPlanView {
    pub writes: Seq<TemplateWriteView>,
    pub unchanged: Seq<Seq<char>>,
    pub conflicts: Seq<ConflictView>,
}

/// What one template file contributes to a plan.
pub enum TemplateStep {
    Write(TemplateWriteView),
    Unchanged(Seq<char>),
    Conflict(ConflictView),
}

pub open spec fn record_view(r: ManagedTemplateRecord) -> RecordView {
    RecordView { path: r.path@, ownership: r.ownership, sha256: r.sha256@ }
}

pub open spec fn record_views(v: Seq<ManagedTemplateRecord>) -> Seq<RecordView> {
    v.map_values(|r: ManagedTemplateRecord| record_view(r))
}

pub open spec fn target_view(t: TemplateTarget) -> TargetView {
    TargetView {
        path: t.path@,
        sha256: t.sha256@,
        content: t.content@,
        current: match t.current {
            Some(c) => Some(c@),
            None => None,
        },
    }
}

pub open spec fn target_views(v: Seq<TemplateTarget>) -> Seq<TargetView> {
    v.map_values(|t: TemplateTarget| target_view(t))
}

pub open spec fn write_view(w: TemplateWrite) -> TemplateWriteView {
    TemplateWriteView {
        path: w.path@,
        before_sha256: match w.before_sha256 {
            Some(d) => Some(d@),
            None => None,
        },
        after_sha256: w.after_sha256@,
        content: w.content@,
    }
}

pub open spec fn conflict_view(c: TemplateConflict) -> ConflictView {
    ConflictView { path: c.path@, reason: c.reason@, next_action: c.next_action@ }
}

pub open spec fn plan_view(p: ManifestPlan) -> ManifestPlanView {
    ManifestPlanView {
        writes: p.writes@.map_values(|w: TemplateWrite| write_view(w)),
        unchanged: p.unchanged@.map_values(|u: String| u@),
        conflicts: p.conflicts@.map_values(|c: TemplateConflict| conflict_view(c)),
    }
}

/// The lowercase hexadecimal SHA-256 of a text's UTF-8 bytes.
pub open spec fn text_digest(t: Seq<char>) -> Seq<char> {
    digest_of(encode_utf8(t))
}

/// The write of `content` to `path` over `before` (none when it is created).
pub open spec fn planned_write(path: Seq<char>, before: Option<Seq<char>>, content: Seq<char>) -> TemplateWriteView {
    TemplateWriteView {
        path,
        before_sha256: match before {
            Some(b) => Some(text_digest(b)),
            None => None,
        },
        after_sha256: text_digest(content),
        content,
    }
}

/// The last recorded entry for `path` (a later entry replaces an earlier one).
pub open spec fn recorded_for(records: Seq<RecordView>, path: Seq<char>) -> Option<RecordView>
    decreases records.len(),
{
    if records.len() == 0 {
        None
    } else if records.last().path == path {
        Some(records.last())
    } else {
        recorded_for(records.drop_last(), path)
    }
}

/// What to do about the rules file: keep exactly one ordered marker pair.
pub open spec fn rules_next_action() -> Seq<char> {
    "Keep exactly one ordered marker pair:\n"@ + rules_start() + "\nproduct-managed rules\n"@ + rules_end()
        + "\nContent outside these markers is preserved."@
}

pub open spec fn rules_conflict(reason: Seq<char>) -> ConflictView {
    ConflictView { path: "KB.md"@, reason, next_action: rules_next_action() }
}

/// What one file of the build's template contributes, given its recorded
/// entry and the build's rules: an unrecorded file is created when missing
/// and a conflict when present; a marked region must be present, well
/// marked and as installed, and is then kept when the build's rules match
/// the record, else rewritten; a whole file is created when missing, a
/// conflict when it differs from the record, kept when the build has not
/// changed it, else rewritten.
pub open spec fn target_step(rec: Option<RecordView>, t: TargetView, target_rules: Seq<char>) -> TemplateStep {
    match rec {
        None => match t.current {
            None => TemplateStep::Write(planned_write(t.path, None, t.content)),
            Some(_) => TemplateStep::Conflict(ConflictView {
                path: t.path,
                reason: "A target template path exists without a recorded ownership baseline."@,
                next_action: "Preserve the file and resolve ownership manually before previewing again."@,
            }),
        },
        Some(old) => match old.ownership {
            TemplateOwnership::MarkedRegion => match t.current {
                None => TemplateStep::Conflict(rules_conflict("The managed rules file is missing."@)),
                Some(text) => match rules_region(text) {
                    Err(_) => TemplateStep::Conflict(rules_conflict("The rules markers are missing, duplicated, or reversed."@)),
                    Ok((cs, ce)) => if text_digest(text.subrange(cs, ce)) != old.sha256 {
                        TemplateStep::Conflict(rules_conflict("The product-managed rules region was customized after installation."@))
                    } else if text_digest(target_rules) == old.sha256 {
                        TemplateStep::Unchanged("KB.md"@)
                    } else {
                        TemplateStep::Write(planned_write("KB.md"@, Some(text), with_rules(text, cs, ce, target_rules)))
                    },
                },
            },
            TemplateOwnership::WholeFile => match t.current {
                None => TemplateStep::Write(planned_write(t.path, None, t.content)),
                Some(text) => if text_digest(text) != old.sha256 {
                    TemplateStep::Conflict(ConflictView {
                        path: t.path,
                        reason: "The product-managed file differs from its recorded installation baseline."@,
                        next_action: "Preserve the customized file and restore or reconcile it manually before previewing again."@,
                    })
                } else if old.sha256 == t.sha256 {
                    TemplateStep::Unchanged(t.path)
                } else {
                    TemplateStep::Write(planned_write(t.path, Some(text), t.content))
                },
            },
        },
    }
}

pub open spec fn add_step(p: ManifestPlanView, s: TemplateStep) -> ManifestPlanView {
    match s {
        TemplateStep::Write(w) => ManifestPlanView { writes: p.writes.push(w), ..p },
        TemplateStep::Unchanged(u) => ManifestPlanView { unchanged: p.unchanged.push(u), ..p },
        TemplateStep::Conflict(c) => ManifestPlanView { conflicts: p.conflicts.push(c), ..p },
    }
}

/// The steps of the build's template files, in order.
pub open spec fn steps_plan(records: Seq<RecordView>, targets: Seq<TargetView>, target_rules: Seq<char>) -> ManifestPlanView
    decreases targets.len(),
{
    if targets.len() == 0 {
        ManifestPlanView { writes: Seq::empty(), unchanged: Seq::empty(), conflicts: Seq::empty() }
    } else {
        add_step(
            steps_plan(records, targets.drop_last(), target_rules),
            target_step(recorded_for(records, targets.last().path), targets.last(), target_rules),
        )
    }
}

/// The plan of a Vault whose template manifest was recorded: the steps of
/// the build's files, and, when nothing conflicts and either the recorded
/// manifest is not this build's or something is written, a write of this
/// build's manifest over the one the Vault holds.
pub open spec fn spec_plan_from_manifest(
    records: Seq<RecordView>,
    targets: Seq<TargetView>,
    target_rules: Seq<char>,
    manifest_is_current: bool,
    manifest_file: Option<Seq<char>>,
    manifest_yaml: Seq<char>,
) -> ManifestPlanView {
    let p = steps_plan(records, targets, target_rules);
    if p.conflicts.len() == 0 && (!manifest_is_current || p.writes.len() > 0) {
        ManifestPlanView { writes: p.writes.push(planned_write(".kb/template.yml"@, manifest_file, manifest_yaml)), ..p }
    } else {
        p
    }
}

/// The lowercase hexadecimal SHA-256 of a text's UTF-8 bytes.
fn text_hash(t: &str) -> (h: String)
    ensures
        h@ == text_digest(t@),
{
    hash(t.as_bytes())
}

fn same_text(a: &str, b: &str) -> (r: bool)
    ensures
        r == (a@ == b@),
{
    equal_chars(chars_of(a).as_slice(), chars_of(b).as_slice())
}

fn write_of(path: &str, before: Option<&str>, content: &str) -> (w: TemplateWrite)
    ensures
        write_view(w) == planned_write(path@, match before {
            Some(b) => Some(b@),
            None => None,
        }, content@),
{
    let before_sha256 = match before {
        Some(b) => Some(text_hash(b)),
        None => None,
    };
    TemplateWrite {
        path: path.to_owned(),
        before_sha256,
        after_sha256: text_hash(content),
        content: content.to_owned(),
    }
}

fn rules_conflict_exec(reason: &str) -> (c: TemplateConflict)
    ensures
        conflict_view(c) == rules_conflict(reason@),
{
    let mut a = chars_of("Keep exactly one ordered marker pair:\n");
    append_chars(&mut a, chars_of("<!-- kb:rules:start -->").as_slice());
    append_chars(&mut a, chars_of("\nproduct-managed rules\n").as_slice());
    append_chars(&mut a, chars_of("<!-- kb:rules:end -->").as_slice());
    append_chars(&mut a, chars_of("\nContent outside these markers is preserved.").as_slice());
    TemplateConflict { path: "KB.md".to_owned(), reason: reason.to_owned(), next_action: string_of(a.as_slice()) }
}

/// The last recorded entry for `path`.
fn recorded_exec<'a>(records: &'a Vec<ManagedTemplateRecord>, path: &str) -> (r: Option<&'a ManagedTemplateRecord>)
    ensures
        match r {
            Some(x) => recorded_for(record_views(records@), path@) == Some(record_view(*x)),
            None => recorded_for(record_views(records@), path@) is None,
        },
{
    let ghost rv = record_views(records@);
    let mut i: usize = records.len();
    proof {
        assert(rv.take(rv.len() as int) =~= rv);
    }
    while i > 0
        invariant
            i <= records@.len(),
            rv == record_views(records@),
            recorded_for(rv, path@) == recorded_for(rv.take(i as int), path@),
        decreases i,
    {
        proof {
            assert(rv.take(i as int).drop_last() =~= rv.take(i - 1));
        }
        if same_text(records[i - 1].path.as_str(), path) {
            return Some(&records[i - 1]);
        }
        i = i - 1;
    }
    None
}

pub enum StepExec {
    Write(TemplateWrite),
    Unchanged(String),
    Conflict(TemplateConflict),
}

pub open spec fn step_view(s: StepExec) -> TemplateStep {
    match s {
        StepExec::Write(w) => TemplateStep::Write(write_view(w)),
        StepExec::Unchanged(u) => TemplateStep::Unchanged(u@),
        StepExec::Conflict(c) => TemplateStep::Conflict(conflict_view(c)),
    }
}

/// What one file of the build's template contributes (see `target_step`).
pub fn plan_target(rec: Option<&ManagedTemplateRecord>, t: &TemplateTarget, target_rules: &str) -> (s: StepExec)
    ensures
        step_view(s) == target_step(match rec {
            Some(r) => Some(record_view(*r)),
            None => None,
        }, target_view(*t), target_rules@),
{
    match rec {
        None => match &t.current {
            None => StepExec::Write(write_of(t.path.as_str(), None, t.content.as_str())),
            Some(_) => StepExec::Conflict(TemplateConflict {
                path: t.path.clone(),
                reason: "A target template path exists without a recorded ownership baseline.".to_owned(),
                next_action: "Preserve the file and resolve ownership manually before previewing again.".to_owned(),
            }),
        },
        Some(old) => match old.ownership {
            TemplateOwnership::MarkedRegion => match &t.current {
                None => StepExec::Conflict(rules_conflict_exec("The managed rules file is missing.")),
                Some(text) => match parse_managed_rules(text.as_str()) {
                    Err(_) => StepExec::Conflict(rules_conflict_exec("The rules markers are missing, duplicated, or reversed.")),
                    Ok(region) => {
                        if !same_text(text_hash(region.content.as_str()).as_str(), old.sha256.as_str()) {
                            StepExec::Conflict(rules_conflict_exec("The product-managed rules region was customized after installation."))
                        } else if same_text(text_hash(target_rules).as_str(), old.sha256.as_str()) {
                            StepExec::Unchanged("KB.md".to_owned())
                        } else {
                            let content = replace_rules(text.as_str(), target_rules);
                            StepExec::Write(write_of("KB.md", Some(text.as_str()), content.as_str()))
                        }
                    },
                },
            },
            TemplateOwnership::WholeFile => match &t.current {
                None => StepExec::Write(write_of(t.path.as_str(), None, t.content.as_str())),
                Some(text) => {
                    if !same_text(text_hash(text.as_str()).as_str(), old.sha256.as_str()) {
                        StepExec::Conflict(TemplateConflict {
                            path: t.path.clone(),
                            reason: "The product-managed file differs from its recorded installation baseline.".to_owned(),
                            next_action: "Preserve the customized file and restore or reconcile it manually before previewing again.".to_owned(),
                        })
                    } else if same_text(old.sha256.as_str(), t.sha256.as_str()) {
                        StepExec::Unchanged(t.path.clone())
                    } else {
                        StepExec::Write(write_of(t.path.as_str(), Some(text.as_str()), t.content.as_str()))
                    }
                },
            },
        },
    }
}

/// Plan a template update from the recorded manifest `records` (see
/// `spec_plan_from_manifest`): `targets` are this build's template files
/// with the Vault's current copies, `target_rules` the build's rules region,
/// `manifest_is_current` whether the recorded manifest is this build's,
/// `manifest_file` the Vault's manifest file and `manifest_yaml` this build's.
pub fn plan_from_manifest(
    records: &Vec<ManagedTemplateRecord>,
    targets: &Vec<TemplateTarget>,
    target_rules: &str,
    manifest_is_current: bool,
    manifest_file: Option<String>,
    manifest_yaml: &str,
) -> (p: ManifestPlan)
    ensures
        plan_view(p) == spec_plan_from_manifest(
            record_views(records@),
            target_views(targets@),
            target_rules@,
            manifest_is_current,
            match manifest_file {
                Some(f) => Some(f@),
                None => None,
            },
            manifest_yaml@,
        ),
{
    let ghost rv = record_views(records@);
    let ghost tv = target_views(targets@);
    let mut p = ManifestPlan { writes: Vec::new(), unchanged: Vec::new(), conflicts: Vec::new() };
    let mut i: usize = 0;
    proof {
        assert(tv.take(0) =~= Seq::<TargetView>::empty());
        assert(plan_view(p) =~= steps_plan(rv, tv.take(0), target_rules@));
    }
    while i < targets.len()
        invariant
            i <= targets@.len(),
            rv == record_views(records@),
            tv == target_views(targets@),
            plan_view(p) == steps_plan(rv, tv.take(i as int), target_rules@),
        decreases targets@.len() - i,
    {
        let t = &targets[i];
        let rec = recorded_exec(records, t.path.as_str());
        let s = plan_target(rec, t, target_rules);
        let ghost before = plan_view(p);
        let ghost sv = step_view(s);
        proof {
            assert(tv.take(i + 1).drop_last() =~= tv.take(i as int));
            assert(tv.take(i + 1).last() == target_view(*t));
        }
        match s {
            StepExec::Write(w) => {
                p.writes.push(w);
            },
            StepExec::Unchanged(u) => {
                p.unchanged.push(u);
            },
            StepExec::Conflict(c) => {
                p.conflicts.push(c);
            },
        }
        proof {
            assert(plan_view(p) =~= add_step(before, sv));
        }
        i = i + 1;
    }
    proof {
        assert(tv.take(targets@.len() as int) =~= tv);
    }
    if p.conflicts.len() == 0 && (!manifest_is_current || p.writes.len() > 0) {
        let ghost before = plan_view(p);
        let w = match &manifest_file {
            Some(f) => write_of(".kb/template.yml", Some(f.as_str()), manifest_yaml),
            None => write_of(".kb/template.yml", None, manifest_yaml),
        };
        let ghost wv = write_view(w);
        p.writes.push(w);
        proof {
            assert(plan_view(p).writes =~= before.writes.push(wv));
        }
    }
    p
}

/// Whether a text equals one of `known` once `\r\n` is read as `\n`.
pub open spec fn known_text(known: Seq<Seq<char>>, text: Seq<char>) -> bool {
    exists|k: int| 0 <= k < known.len() && lf_text(#[trigger] known[k]) == lf_text(text)
}

/// What a Vault without a template manifest does with its rules file: a
/// missing one is created; one equal to the build's is kept; one equal to a
/// known earlier release is rewritten; otherwise it is kept when its rules
/// region has a known product digest, else a conflict.
pub open spec fn unrecorded_rules_step(
    current: Option<Seq<char>>,
    rules_target: Seq<char>,
    legacy: Seq<Seq<char>>,
    known_digests: Seq<Seq<char>>,
) -> TemplateStep {
    match current {
        None => TemplateStep::Write(planned_write("KB.md"@, None, rules_target)),
        Some(text) => if lf_text(text) == lf_text(rules_target) {
            TemplateStep::Unchanged("KB.md"@)
        } else if known_text(legacy, text) {
            TemplateStep::Write(planned_write("KB.md"@, Some(text), rules_target))
        } else {
            match rules_region(text) {
                Ok((cs, ce)) => if known_digests.contains(text_digest(text.subrange(cs, ce))) {
                    TemplateStep::Unchanged("KB.md"@)
                } else {
                    TemplateStep::Conflict(rules_conflict("The customized rules file has no known product ownership baseline."@))
                },
                Err(_) => TemplateStep::Conflict(rules_conflict("The customized rules file has no known product ownership baseline."@)),
            }
        },
    }
}

/// What a Vault without a template manifest does with a product schema: a
/// missing one is created, one equal to the build's kept, any other a
/// conflict.
pub open spec fn unrecorded_schema_step(t: TargetView) -> TemplateStep {
    match t.current {
        None => TemplateStep::Write(planned_write(t.path, None, t.content)),
        Some(text) => if lf_text(text) == lf_text(t.content) {
            TemplateStep::Unchanged(t.path)
        } else {
            TemplateStep::Conflict(ConflictView {
                path: t.path,
                reason: "The product schema differs from every known baseline."@,
                next_action: "Preserve the file and restore a known Knowledge-Brain schema before previewing again."@,
            })
        },
    }
}

pub open spec fn schema_steps(p: ManifestPlanView, schemas: Seq<TargetView>) -> ManifestPlanView
    decreases schemas.len(),
{
    if schemas.len() == 0 {
        p
    } else {
        add_step(schema_steps(p, schemas.drop_last()), unrecorded_schema_step(schemas.last()))
    }
}

/// The plan of a Vault without a template manifest: the rules file, then
/// each product schema, and, when nothing conflicts, this build's manifest
/// is created.
pub open spec fn spec_plan_without_manifest(
    current_rules: Option<Seq<char>>,
    rules_target: Seq<char>,
    legacy: Seq<Seq<char>>,
    known_digests: Seq<Seq<char>>,
    schemas: Seq<TargetView>,
    manifest_yaml: Seq<char>,
) -> ManifestPlanView {
    let empty = ManifestPlanView { writes: Seq::empty(), unchanged: Seq::empty(), conflicts: Seq::empty() };
    let p = schema_steps(add_step(empty, unrecorded_rules_step(current_rules, rules_target, legacy, known_digests)), schemas);
    if p.conflicts.len() == 0 {
        ManifestPlanView { writes: p.writes.push(planned_write(".kb/template.yml"@, None, manifest_yaml)), ..p }
    } else {
        p
    }
}

fn known_text_exec(known: &Vec<String>, text: &str) -> (r: bool)
    ensures
        r == known_text(views(known@), text@),
{
    let mut i: usize = 0;
    while i < known.len()
        invariant
            i <= known@.len(),
            forall|k: int| 0 <= k < i ==> lf_text(#[trigger] views(known@)[k]) != lf_text(text@),
        decreases known@.len() - i,
    {
        if text_equal(known[i].as_str(), text) {
            proof {
                assert(lf_text(views(known@)[i as int]) == lf_text(text@));
            }
            return true;
        }
        i = i + 1;
    }
    false
}

fn known_digest_exec(known: &Vec<String>, digest: &str) -> (r: bool)
    ensures
        r == views(known@).contains(digest@),
{
    let mut i: usize = 0;
    while i < known.len()
        invariant
            i <= known@.len(),
            forall|k: int| 0 <= k < i ==> views(known@)[k] != digest@,
        decreases known@.len() - i,
    {
        if same_text(known[i].as_str(), digest) {
            proof {
                assert(views(known@)[i as int] == digest@);
            }
            return true;
        }
        i = i + 1;
    }
    false
}

fn push_step(p: &mut ManifestPlan, s: StepExec)
    ensures
        plan_view(*final(p)) == add_step(plan_view(*old(p)), step_view(s)),
{
    let ghost before = plan_view(*p);
    let ghost sv = step_view(s);
    match s {
        StepExec::Write(w) => {
            p.writes.push(w);
        },
        StepExec::Unchanged(u) => {
            p.unchanged.push(u);
        },
        StepExec::Conflict(c) => {
            p.conflicts.push(c);
        },
    }
    proof {
        assert(plan_view(*p) =~= add_step(before, sv));
    }
}

/// Plan the template of a Vault that records no template manifest (see
/// `spec_plan_without_manifest`): `current_rules` is the Vault's `KB.md`,
/// `rules_target` this build's, `legacy_rules` earlier releases' files,
/// `known_digests` the digests of known product rules regions, `schemas`
/// this build's schemas with the Vault's copies, `manifest_yaml` this
/// build's manifest.
pub fn plan_without_manifest(
    current_rules: Option<String>,
    rules_target: &str,
    legacy_rules: &Vec<String>,
    known_digests: &Vec<String>,
    schemas: &Vec<TemplateTarget>,
    manifest_yaml: &str,
) -> (p: ManifestPlan)
    ensures
        plan_view(p) == spec_plan_without_manifest(
            match current_rules {
                Some(r) => Some(r@),
                None => None,
            },
            rules_target@,
            views(legacy_rules@),
            views(known_digests@),
            target_views(schemas@),
            manifest_yaml@,
        ),
{
    let step = match &current_rules {
        None => StepExec::Write(write_of("KB.md", None, rules_target)),
        Some(text) => {
            if text_equal(text.as_str(), rules_target) {
                StepExec::Unchanged("KB.md".to_owned())
            } else if known_text_exec(legacy_rules, text.as_str()) {
                StepExec::Write(write_of("KB.md", Some(text.as_str()), rules_target))
            } else {
                match parse_managed_rules(text.as_str()) {
                    Ok(region) => {
                        if known_digest_exec(known_digests, text_hash(region.content.as_str()).as_str()) {
                            StepExec::Unchanged("KB.md".to_owned())
                        } else {
                            StepExec::Conflict(rules_conflict_exec("The customized rules file has no known product ownership baseline."))
                        }
                    },
                    Err(_) => StepExec::Conflict(rules_conflict_exec("The customized rules file has no known product ownership baseline.")),
                }
            }
        },
    };
    let ghost cr = match current_rules {
        Some(r) => Some(r@),
        None => None::<Seq<char>>,
    };
    assert(step_view(step) == unrecorded_rules_step(cr, rules_target@, views(legacy_rules@), views(known_digests@)));
    let mut p = ManifestPlan { writes: Vec::new(), unchanged: Vec::new(), conflicts: Vec::new() };
    let ghost empty = plan_view(p);
    assert(empty =~= ManifestPlanView { writes: Seq::empty(), unchanged: Seq::empty(), conflicts: Seq::empty() });
    push_step(&mut p, step);
    let ghost start = plan_view(p);
    let ghost sv = target_views(schemas@);
    let mut i: usize = 0;
    proof {
        assert(sv.take(0) =~= Seq::<TargetView>::empty());
    }
    while i < schemas.len()
        invariant
            i <= schemas@.len(),
            sv == target_views(schemas@),
            plan_view(p) == schema_steps(start, sv.take(i as int)),
        decreases schemas@.len() - i,
    {
        let t = &schemas[i];
        let s = match &t.current {
            None => StepExec::Write(write_of(t.path.as_str(), None, t.content.as_str())),
            Some(text) => {
                if text_equal(text.as_str(), t.content.as_str()) {
                    StepExec::Unchanged(t.path.clone())
                } else {
                    StepExec::Conflict(TemplateConflict {
                        path: t.path.clone(),
                        reason: "The product schema differs from every known baseline.".to_owned(),
                        next_action: "Preserve the file and restore a known Knowledge-Brain schema before previewing again.".to_owned(),
                    })
                }
            },
        };
        proof {
            assert(sv.take(i + 1).drop_last() =~= sv.take(i as int));
            assert(sv.take(i + 1).last() == target_view(*t));
        }
        push_step(&mut p, s);
        i = i + 1;
    }
    proof {
        assert(sv.take(schemas@.len() as int) =~= sv);
    }
    if p.conflicts.len() == 0 {
        let ghost before = plan_view(p);
        let w = write_of(".kb/template.yml", None, manifest_yaml);
        let ghost wv = write_view(w);
        p.writes.push(w);
        proof {
            assert(plan_view(p).writes =~= before.writes.push(wv));
        }
    }
    p
}

} // verus!
