//! Applying a reviewed source capture: when a plan is too old to apply, which
//! pending work blocks it, which recorded progress belongs to it, and the
//! warnings its receipt keeps.
use vstd::prelude::*;
use vstd::utf8::encode_utf8;
use crate::error::{ErrorCode, KbError};
use crate::knowledge_apply::{current_digest, digest_of, recovery, WriteEffect};
use crate::source_io::{hash, hex_chars, sha256_digest};
use crate::text::{chars_of, equal_chars, views};

verus! {

/// What to do about a source plan that no longer fits the Vault.
pub open spec fn review_again() -> Seq<char> {
    "Run kb review and inspect a fresh plan."@
}

/// The error of a source plan that no longer fits the Vault.
pub fn stale(message: &str) -> (e: KbError)
    ensures
        e.code == ErrorCode::PlanStale,
        e.message@ == message@,
        !e.retryable,
        e.remediation@ == review_again(),
{
    KbError::new(ErrorCode::PlanStale, message, false, "Run kb review and inspect a fresh plan.")
}

/// A stored capture plan's bytes must hash (lowercase hexadecimal SHA-256)
/// to the digest recorded beside them; otherwise the plan is stale.
pub fn validate_digest(plan: &[u8], recorded: &str) -> (r: Result<(), KbError>)
    ensures
        r is Ok <==> hex_chars(sha256_digest(plan@)) == recorded@,
        r matches Err(e) ==> e.code == ErrorCode::PlanStale && e.message@ == "Reviewed plan contents changed."@
            && e.remediation@ == review_again(),
{
    let actual = hash(plan);
    if equal_chars(chars_of(actual.as_str()).as_slice(), chars_of(recorded).as_slice()) {
        Ok(())
    } else {
        Err(stale("Reviewed plan contents changed."))
    }
}

/// A writing operation may not start while a source capture or a knowledge
/// save waits for recovery; the source capture is reported first.
pub fn ensure_no_pending(source_pending: bool, knowledge_pending: bool) -> (r: Result<(), KbError>)
    ensures
        r is Ok <==> !source_pending && !knowledge_pending,
        r matches Err(e) ==> e.code == ErrorCode::VaultNeedsRecovery && e.message@ == (if source_pending {
            "An interrupted source capture needs recovery."@
        } else {
            "An interrupted knowledge save needs recovery."@
        }),
{
    if source_pending {
        return Err(recovery("An interrupted source capture needs recovery."));
    }
    if knowledge_pending {
        return Err(recovery("An interrupted knowledge save needs recovery."));
    }
    Ok(())
}

/// A plan may be applied only within its retention, not from more than five
/// minutes in the future, and only by the version that made it.
pub open spec fn plan_outdated(age_seconds: i64, retention_hours: u64, same_version: bool) -> bool {
    age_seconds < -300 || age_seconds > retention_hours * 3600 || !same_version
}

/// Check a plan's age (seconds since it was made) and maker (see
/// `plan_outdated`).
pub fn check_plan_age(age_seconds: i64, retention_hours: u64, same_version: bool) -> (r: Result<(), KbError>)
    ensures
        r is Ok <==> !plan_outdated(age_seconds, retention_hours, same_version),
        r matches Err(e) ==> e.code == ErrorCode::PlanStale && e.message@
            == "Plan expired, has a future timestamp, or was created by another application version."@
            && e.remediation@ == review_again(),
{
    let limit: i128 = retention_hours as i128 * 3600;
    if age_seconds < -300 || age_seconds as i128 > limit || !same_version {
        return Err(stale("Plan expired, has a future timestamp, or was created by another application version."));
    }
    Ok(())
}

/// A record a source plan writes: its path, the SHA-256 it must have before
/// (none for a new record), and its content.
#[derive(Debug, Clone)]
pub struct RecordWrite {
    pub path: String,
    pub before_sha256: Option<String>,
    pub content: String,
}

/// A source a plan captures or marks missing: where its object is kept,
/// its SHA-256, and whether it is present.
#[derive(Debug, Clone)]
pub struct CaptureInput {
    pub object_path: String,
    pub sha256: String,
    pub present: bool,
}

/// A recorded effect is one of the plan's record writes: same path, the
/// digest of the bytes before is the one planned, and the digest written is
/// that of the planned content.
pub open spec fn record_effect_planned(writes: Seq<RecordWrite>, e: WriteEffect) -> bool {
    exists|k: int|
        0 <= k < writes.len() && (#[trigger] writes[k]).path@ == e.path@ && digest_of(encode_utf8(writes[k].content@))
            == e.after_sha256@ && crate::extract::opt_view(writes[k].before_sha256) == current_digest(e.before)
}

/// A recorded effect created the object of a present input.
pub open spec fn object_effect_planned(inputs: Seq<CaptureInput>, e: WriteEffect) -> bool {
    e.before is None && exists|k: int|
        0 <= k < inputs.len() && (#[trigger] inputs[k]).present && inputs[k].object_path@ == e.path@
            && inputs[k].sha256@ == e.after_sha256@
}

/// The message of the first recorded effect that repeats a path or is no
/// write of the plan.
pub open spec fn capture_effects_problem(
    writes: Seq<RecordWrite>,
    inputs: Seq<CaptureInput>,
    es: Seq<WriteEffect>,
) -> Option<Seq<char>>
    decreases es.len(),
{
    if es.len() == 0 {
        None
    } else {
        match capture_effects_problem(writes, inputs, es.drop_last()) {
            Some(m) => Some(m),
            None => if exists|j: int| 0 <= j < es.len() - 1 && (#[trigger] es[j]).path@ == es.last().path@ {
                Some("Duplicate recovery path."@)
            } else if !record_effect_planned(writes, es.last()) && !object_effect_planned(inputs, es.last()) {
                Some("Progress is outside its operation plan."@)
            } else {
                None
            },
        }
    }
}

proof fn lemma_problem_prefix(writes: Seq<RecordWrite>, inputs: Seq<CaptureInput>, es: Seq<WriteEffect>, k: int)
    requires
        0 <= k <= es.len(),
        capture_effects_problem(writes, inputs, es.take(k)) is Some,
    ensures
        capture_effects_problem(writes, inputs, es) == capture_effects_problem(writes, inputs, es.take(k)),
    decreases es.len() - k,
{
    if k < es.len() {
        assert(es.take(k + 1).drop_last() =~= es.take(k));
        lemma_problem_prefix(writes, inputs, es, k + 1);
    } else {
        assert(es.take(k) =~= es);
    }
}

fn text_eq(a: &str, b: &str) -> (r: bool)
    ensures
        r == (a@ == b@),
{
    equal_chars(chars_of(a).as_slice(), chars_of(b).as_slice())
}

fn opt_text_eq(a: &Option<String>, b: &Option<String>) -> (r: bool)
    ensures
        r == (crate::extract::opt_view(*a) == crate::extract::opt_view(*b)),
{
    match (a, b) {
        (Some(x), Some(y)) => text_eq(x.as_str(), y.as_str()),
        (None, None) => true,
        _ => false,
    }
}

fn is_record_effect(writes: &Vec<RecordWrite>, e: &WriteEffect) -> (b: bool)
    ensures
        b == record_effect_planned(writes@, *e),
{
    let before = match &e.before {
        Some(v) => Some(hash(v.as_slice())),
        None => None,
    };
    let mut k: usize = 0;
    while k < writes.len()
        invariant
            k <= writes@.len(),
            crate::extract::opt_view(before) == current_digest(e.before),
            forall|x: int|
                0 <= x < k ==> !((#[trigger] writes@[x]).path@ == e.path@ && digest_of(encode_utf8(writes@[x].content@))
                    == e.after_sha256@ && crate::extract::opt_view(writes@[x].before_sha256) == current_digest(e.before)),
        decreases writes@.len() - k,
    {
        let w = &writes[k];
        if text_eq(w.path.as_str(), e.path.as_str()) && text_eq(hash(w.content.as_str().as_bytes()).as_str(), e.after_sha256.as_str())
            && opt_text_eq(&w.before_sha256, &before) {
            return true;
        }
        k = k + 1;
    }
    false
}

fn is_object_effect(inputs: &Vec<CaptureInput>, e: &WriteEffect) -> (b: bool)
    ensures
        b == object_effect_planned(inputs@, *e),
{
    if e.before.is_some() {
        return false;
    }
    let mut k: usize = 0;
    while k < inputs.len()
        invariant
            k <= inputs@.len(),
            e.before is None,
            forall|x: int|
                0 <= x < k ==> !((#[trigger] inputs@[x]).present && inputs@[x].object_path@ == e.path@
                    && inputs@[x].sha256@ == e.after_sha256@),
        decreases inputs@.len() - k,
    {
        let i = &inputs[k];
        if i.present && text_eq(i.object_path.as_str(), e.path.as_str()) && text_eq(i.sha256.as_str(), e.after_sha256.as_str()) {
            return true;
        }
        k = k + 1;
    }
    false
}

/// Check that recorded progress belongs to the plan: the same operation,
/// then each effect once and each a write of the plan (see
/// `capture_effects_problem`).
pub fn validate_capture_progress(
    plan_id: &str,
    writes: &Vec<RecordWrite>,
    inputs: &Vec<CaptureInput>,
    progress_id: &str,
    effects: &Vec<WriteEffect>,
) -> (r: Result<(), KbError>)
    ensures
        match (if progress_id@ != plan_id@ {
            Some("Progress identity mismatch."@)
        } else {
            capture_effects_problem(writes@, inputs@, effects@)
        }) {
            None => r is Ok,
            Some(m) => r matches Err(e) && e.code == ErrorCode::VaultNeedsRecovery && e.message@ == m,
        },
{
    if !text_eq(progress_id, plan_id) {
        return Err(recovery("Progress identity mismatch."));
    }
    let mut i: usize = 0;
    proof {
        assert(effects@.take(0) =~= Seq::<WriteEffect>::empty());
    }
    while i < effects.len()
        invariant
            i <= effects@.len(),
            progress_id@ == plan_id@,
            capture_effects_problem(writes@, inputs@, effects@.take(i as int)) is None,
        decreases effects@.len() - i,
    {
        let e = &effects[i];
        let ghost prefix = effects@.take(i + 1);
        proof {
            assert(prefix.drop_last() =~= effects@.take(i as int));
            assert(prefix.last() == effects@[i as int]);
        }
        let mut j: usize = 0;
        let mut repeated = false;
        while j < i
            invariant
                j <= i,
                i < effects@.len(),
                prefix == effects@.take(i + 1),
                prefix.len() == i + 1,
                prefix.last() == effects@[i as int],
                e.path@ == effects@[i as int].path@,
                forall|x: int| 0 <= x <= i ==> prefix[x] == effects@[x],
                !repeated ==> forall|x: int| 0 <= x < j ==> (#[trigger] prefix[x]).path@ != prefix.last().path@,
                repeated ==> exists|x: int| 0 <= x < prefix.len() - 1 && (#[trigger] prefix[x]).path@ == prefix.last().path@,
            decreases i - j,
        {
            if !repeated && text_eq(effects[j].path.as_str(), e.path.as_str()) {
                proof {
                    assert(prefix[j as int] == effects@[j as int]);
                }
                repeated = true;
            }
            j = j + 1;
        }
        if repeated {
            proof {
                lemma_problem_prefix(writes@, inputs@, effects@, i + 1);
            }
            return Err(recovery("Duplicate recovery path."));
        }
        if !is_record_effect(writes, e) && !is_object_effect(inputs, e) {
            proof {
                lemma_problem_prefix(writes@, inputs@, effects@, i + 1);
            }
            return Err(recovery("Progress is outside its operation plan."));
        }
        i = i + 1;
    }
    proof {
        assert(effects@.take(effects@.len() as int) =~= effects@);
    }
    Ok(())
}

/// A receipt's warnings after housekeeping: the new warnings it does not
/// yet hold are added, in order and once each.
pub open spec fn merged_warnings(existing: Seq<Seq<char>>, new: Seq<Seq<char>>) -> Seq<Seq<char>>
    decreases new.len(),
{
    if new.len() == 0 {
        existing
    } else {
        let m = merged_warnings(existing, new.drop_last());
        if m.contains(new.last()) {
            m
        } else {
            m.push(new.last())
        }
    }
}

fn listed(v: &Vec<String>, s: &str) -> (b: bool)
    ensures
        b == views(v@).contains(s@),
{
    let ghost vv = views(v@);
    let mut j: usize = 0;
    while j < v.len()
        invariant
            j <= v@.len(),
            vv == views(v@),
            forall|k: int| 0 <= k < j ==> vv[k] != s@,
        decreases v@.len() - j,
    {
        if text_eq(v[j].as_str(), s) {
            proof {
                assert(vv[j as int] == s@);
            }
            return true;
        }
        j = j + 1;
    }
    false
}

/// Add the warnings of housekeeping to a receipt's (see `merged_warnings`),
/// and whether any was new to it, so the receipt must be written again.
pub fn merge_warnings(existing: Vec<String>, new: &Vec<String>) -> (r: (Vec<String>, bool))
    ensures
        views(r.0@) == merged_warnings(views(existing@), views(new@)),
        r.1 == exists|i: int| 0 <= i < new@.len() && !views(existing@).contains(#[trigger] views(new@)[i]),
{
    let ghost ev = views(existing@);
    let ghost nv = views(new@);
    let original = existing.clone();
    proof {
        assert(views(original@) =~= ev);
    }
    let mut out = existing;
    let mut changed = false;
    let mut i: usize = 0;
    proof {
        assert(nv.take(0) =~= Seq::<Seq<char>>::empty());
    }
    while i < new.len()
        invariant
            i <= new@.len(),
            ev == views(original@),
            nv == views(new@),
            views(out@) == merged_warnings(ev, nv.take(i as int)),
            changed == exists|k: int| 0 <= k < i && !ev.contains(#[trigger] nv[k]),
        decreases new@.len() - i,
    {
        proof {
            assert(nv.take(i + 1).drop_last() =~= nv.take(i as int));
            assert(nv.take(i + 1).last() == new@[i as int]@);
            assert(nv[i as int] == new@[i as int]@);
        }
        let w = new[i].as_str();
        if !listed(&original, w) {
            changed = true;
        }
        if !listed(&out, w) {
            let ghost before = views(out@);
            out.push(w.to_owned());
            proof {
                assert(views(out@) =~= before.push(w@));
            }
        }
        proof {
            if !ev.contains(nv[i as int]) {
                assert(exists|k: int| 0 <= k < i + 1 && !ev.contains(#[trigger] nv[k]));
            }
        }
        i = i + 1;
    }
    proof {
        assert(nv.take(new@.len() as int) =~= nv);
    }
    (out, changed)
}

} // verus!
