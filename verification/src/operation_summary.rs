//! The summary shown for an operation: what it is, its state, how many
//! changes it makes and which paths they touch.
use vstd::prelude::*;
use crate::operation_events::OperationEventKind;
use crate::skill_plan::SkillAction;
use crate::text::{append_chars, chars_of, decimal, decimal_chars, string_of};

verus! {

/// What an operation does and where it stands.
#[derive(Debug, Clone)]
pub struct OperationSummary {
    pub operation_id: String,
    pub operation_kind: String,
    pub operation_state: String,
    pub vault_id: String,
    pub vault_root: String,
    pub change_count: usize,
    pub affected_paths: Vec<String>,
    pub summary: String,
    pub requires_confirmation: bool,
    pub can_apply: bool,
}

/// The sentence of a summary: the action, the count, and how far the
/// changes got.
pub open spec fn summary_text(action: Seq<char>, count: nat, phrase: Seq<char>) -> Seq<char> {
    action + ": "@ + decimal(count) + " "@ + phrase + " change(s)."@
}

fn sentence(action: &str, count: usize, phrase: &str) -> (s: String)
    ensures
        s@ == summary_text(action@, count as nat, phrase@),
{
    let mut t = chars_of(action);
    append_chars(&mut t, chars_of(": ").as_slice());
    append_chars(&mut t, decimal_chars(count as u64).as_slice());
    append_chars(&mut t, chars_of(" ").as_slice());
    append_chars(&mut t, chars_of(phrase).as_slice());
    append_chars(&mut t, chars_of(" change(s).").as_slice());
    string_of(t.as_slice())
}

/// The summary of a plan awaiting review: one change per affected path,
/// confirmation needed, ready to apply.
pub fn planned_summary(
    operation_id: &str,
    operation_kind: &str,
    vault_id: &str,
    vault_root: &str,
    affected_paths: Vec<String>,
    action: &str,
) -> (s: OperationSummary)
    ensures
        s.operation_id@ == operation_id@,
        s.operation_kind@ == operation_kind@,
        s.operation_state@ == "planned"@,
        s.vault_id@ == vault_id@,
        s.vault_root@ == vault_root@,
        s.change_count == affected_paths@.len(),
        s.affected_paths@ == affected_paths@,
        s.summary@ == summary_text(action@, affected_paths@.len(), "planned"@),
        s.requires_confirmation,
        s.can_apply,
{
    let change_count = affected_paths.len();
    OperationSummary {
        operation_id: operation_id.to_owned(),
        operation_kind: operation_kind.to_owned(),
        operation_state: "planned".to_owned(),
        vault_id: vault_id.to_owned(),
        vault_root: vault_root.to_owned(),
        change_count,
        affected_paths,
        summary: sentence(action, change_count, "planned"),
        requires_confirmation: true,
        can_apply: true,
    }
}

/// The summary of an applied operation: one change per affected path,
/// nothing left to confirm or apply.
pub fn applied_summary(
    operation_id: &str,
    operation_kind: &str,
    vault_id: &str,
    vault_root: &str,
    affected_paths: Vec<String>,
    action: &str,
) -> (s: OperationSummary)
    ensures
        s.operation_id@ == operation_id@,
        s.operation_kind@ == operation_kind@,
        s.operation_state@ == "applied"@,
        s.vault_id@ == vault_id@,
        s.vault_root@ == vault_root@,
        s.change_count == affected_paths@.len(),
        s.affected_paths@ == affected_paths@,
        s.summary@ == summary_text(action@, affected_paths@.len(), "applied"@),
        !s.requires_confirmation,
        !s.can_apply,
{
    let change_count = affected_paths.len();
    OperationSummary {
        operation_id: operation_id.to_owned(),
        operation_kind: operation_kind.to_owned(),
        operation_state: "applied".to_owned(),
        vault_id: vault_id.to_owned(),
        vault_root: vault_root.to_owned(),
        change_count,
        affected_paths,
        summary: sentence(action, change_count, "applied"),
        requires_confirmation: false,
        can_apply: false,
    }
}

/// The summary of an applied source capture: the recorded source paths are
/// affected, and each captured or newly missing source is one change.
pub fn source_result_summary(
    operation_id: &str,
    vault_id: &str,
    vault_root: &str,
    source_paths: Vec<String>,
    captured: usize,
    marked_missing: usize,
) -> (s: OperationSummary)
    requires
        captured + marked_missing <= usize::MAX,
    ensures
        s.operation_kind@ == "capture_sources"@,
        s.operation_state@ == "applied"@,
        s.change_count == captured + marked_missing,
        s.affected_paths@ == source_paths@,
        s.summary@ == summary_text("Capture sources"@, (captured + marked_missing) as nat, "applied"@),
        !s.requires_confirmation,
        !s.can_apply,
{
    let mut s = applied_summary(operation_id, "capture_sources", vault_id, vault_root, source_paths, "Capture sources");
    let change_count = captured + marked_missing;
    s.change_count = change_count;
    s.summary = sentence("Capture sources", change_count, "applied");
    s
}

/// The Vault paths of a knowledge plan's changes: each under `Wiki/`.
pub fn knowledge_paths(changes: &Vec<String>) -> (out: Vec<String>)
    ensures
        out@.len() == changes@.len(),
        forall|i: int| 0 <= i < changes@.len() ==> (#[trigger] out@[i])@ == "Wiki/"@ + changes@[i]@,
{
    let mut out: Vec<String> = Vec::new();
    let mut i: usize = 0;
    while i < changes.len()
        invariant
            i <= changes@.len(),
            out@.len() == i,
            forall|k: int| 0 <= k < i ==> (#[trigger] out@[k])@ == "Wiki/"@ + changes@[k]@,
        decreases changes@.len() - i,
    {
        let mut p = chars_of("Wiki/");
        append_chars(&mut p, chars_of(changes[i].as_str()).as_slice());
        out.push(string_of(p.as_slice()));
        i = i + 1;
    }
    out
}

/// The action of a Skill operation.
pub fn skill_action_label(action: SkillAction) -> (l: &'static str)
    ensures
        l@ == (if action == SkillAction::Install { "Install Skills"@ } else { "Uninstall Skills"@ }),
{
    match action {
        SkillAction::Install => "Install Skills",
        SkillAction::Uninstall => "Uninstall Skills",
    }
}

/// How an event describes a plan's state: its name, its phrase, whether
/// confirmation is still needed and whether it can still be applied.
pub open spec fn event_state(kind: OperationEventKind) -> (Seq<char>, Seq<char>, bool, bool) {
    match kind {
        OperationEventKind::Planned => ("planned"@, "planned"@, true, true),
        OperationEventKind::Applying => ("applying"@, "being applied"@, false, true),
        OperationEventKind::Progress => ("progress"@, "in progress"@, false, true),
        OperationEventKind::Recovering => ("recovering"@, "recovering"@, false, true),
        OperationEventKind::Applied => ("applied"@, "applied"@, false, false),
        OperationEventKind::Failed => ("failed"@, "failed"@, false, false),
    }
}

/// The summary of an operation given its latest event: an applied
/// operation's summary stands; a plan's takes its state from the event.
pub fn summary_with_event(
    summary: OperationSummary,
    applied: bool,
    action: &str,
    latest: OperationEventKind,
) -> (s: OperationSummary)
    ensures
        applied ==> s.operation_state == summary.operation_state && s.summary == summary.summary
            && s.requires_confirmation == summary.requires_confirmation && s.can_apply == summary.can_apply,
        !applied ==> s.operation_state@ == event_state(latest).0 && s.summary@ == summary_text(
            action@,
            summary.change_count as nat,
            event_state(latest).1,
        ) && s.requires_confirmation == event_state(latest).2 && s.can_apply == event_state(latest).3,
        s.operation_id == summary.operation_id,
        s.operation_kind == summary.operation_kind,
        s.vault_id == summary.vault_id,
        s.vault_root == summary.vault_root,
        s.change_count == summary.change_count,
        s.affected_paths == summary.affected_paths,
{
    if applied {
        return summary;
    }
    let (state, phrase, confirm, apply) = match latest {
        OperationEventKind::Planned => ("planned", "planned", true, true),
        OperationEventKind::Applying => ("applying", "being applied", false, true),
        OperationEventKind::Progress => ("progress", "in progress", false, true),
        OperationEventKind::Recovering => ("recovering", "recovering", false, true),
        OperationEventKind::Applied => ("applied", "applied", false, false),
        OperationEventKind::Failed => ("failed", "failed", false, false),
    };
    let mut s = summary;
    s.operation_state = state.to_owned();
    s.summary = sentence(action, s.change_count, phrase);
    s.requires_confirmation = confirm;
    s.can_apply = apply;
    s
}

} // verus!
