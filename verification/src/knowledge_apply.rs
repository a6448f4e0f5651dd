//! Checks made before a reviewed knowledge plan is applied or recovered:
//! that it writes exactly the files it was planned for, that recorded
//! progress belongs to it, and which recorded writes a failed apply undoes.
use vstd::prelude::*;
use vstd::utf8::encode_utf8;
use crate::error::{config_message, ErrorCode, KbError};
use crate::source_io::{hash, hex_chars, sha256_digest};
use crate::text::{append_chars, chars_of, equal_chars, string_of};

verus! {

/// One file a knowledge plan writes: its Vault path, the SHA-256 it must
/// have before (none for a new file), whether it is deleted, and its content.
#[derive(Debug)]
pub struct KnowledgeWrite {
    pub path: String,
    pub before_sha256: Option<String>,
    pub delete: bool,
    pub content: String,
}

/// One recorded write of an interrupted apply: the path, the bytes it had
/// before (none for a new file) and the SHA-256 written.
#[derive(Debug)]
pub struct WriteEffect {
    pub path: String,
    pub before: Option<Vec<u8>>,
    pub after_sha256: String,
}

pub open spec fn write_paths(ws: Seq<KnowledgeWrite>) -> Seq<Seq<char>> {
    ws.map_values(|w: KnowledgeWrite| w.path@)
}

/// The Vault paths of the requested changes: each under `Wiki/`.
pub open spec fn expected_paths(changes: Seq<Seq<char>>) -> Set<Seq<char>> {
    Set::new(|p: Seq<char>| exists|i: int| 0 <= i < changes.len() && p == "Wiki/"@ + #[trigger] changes[i])
}

/// A derived file every knowledge plan writes.
pub open spec fn derived(p: Seq<char>) -> bool {
    p == "Wiki/index.md"@ || p == "Wiki/log.md"@
}

/// The first write target that repeats an earlier one or is neither derived
/// nor requested, as the detail of its error.
pub open spec fn write_target_problem(changes: Seq<Seq<char>>, ws: Seq<Seq<char>>) -> Option<Seq<char>>
    decreases ws.len(),
{
    if ws.len() == 0 {
        None
    } else {
        match write_target_problem(changes, ws.drop_last()) {
            Some(m) => Some(m),
            None => {
                let w = ws.last();
                if ws.drop_last().contains(w) {
                    Some("duplicate write target"@)
                } else if !derived(w) && !expected_paths(changes).contains(w) {
                    Some("unexpected write target "@ + w)
                } else {
                    None
                }
            },
        }
    }
}

/// What is wrong with a plan's write set, if anything: a repeated or
/// unexpected target, or a set that is not exactly the requested files and
/// both derived files.
pub open spec fn write_set_problem(changes: Seq<Seq<char>>, ws: Seq<Seq<char>>) -> Option<Seq<char>> {
    match write_target_problem(changes, ws) {
        Some(m) => Some(m),
        None => if ws.to_set().filter(|p: Seq<char>| !derived(p)) != expected_paths(changes) || !ws.contains(
            "Wiki/index.md"@,
        ) || !ws.contains("Wiki/log.md"@) {
            Some("write set does not match requested and derived files"@)
        } else {
            None
        },
    }
}

fn listed(ws: &Vec<KnowledgeWrite>, upto: usize, p: &[char]) -> (b: bool)
    requires
        upto <= ws@.len(),
    ensures
        b == write_paths(ws@).take(upto as int).contains(p@),
{
    let ghost wp = write_paths(ws@).take(upto as int);
    let mut i: usize = 0;
    while i < upto
        invariant
            i <= upto,
            upto <= ws@.len(),
            wp == write_paths(ws@).take(upto as int),
            forall|k: int| 0 <= k < i ==> wp[k] != p@,
        decreases upto - i,
    {
        let c = chars_of(ws[i].path.as_str());
        if equal_chars(c.as_slice(), p) {
            proof {
                assert(wp[i as int] == p@);
            }
            return true;
        }
        i = i + 1;
    }
    false
}

fn requested(changes: &Vec<String>, p: &[char]) -> (b: bool)
    ensures
        b == expected_paths(crate::text::views(changes@)).contains(p@),
{
    let ghost cv = crate::text::views(changes@);
    let mut i: usize = 0;
    while i < changes.len()
        invariant
            i <= changes@.len(),
            cv == crate::text::views(changes@),
            forall|k: int| 0 <= k < i ==> p@ != "Wiki/"@ + #[trigger] cv[k],
        decreases changes@.len() - i,
    {
        let mut w = chars_of("Wiki/");
        append_chars(&mut w, chars_of(changes[i].as_str()).as_slice());
        if equal_chars(w.as_slice(), p) {
            proof {
                assert(p@ == "Wiki/"@ + cv[i as int]);
            }
            return true;
        }
        i = i + 1;
    }
    false
}

proof fn lemma_target_problem_stays(changes: Seq<Seq<char>>, ws: Seq<Seq<char>>, i: int)
    requires
        0 <= i <= ws.len(),
        write_target_problem(changes, ws.take(i)) is Some,
    ensures
        write_target_problem(changes, ws) == write_target_problem(changes, ws.take(i)),
    decreases ws.len() - i,
{
    if i < ws.len() {
        assert(ws.take(i + 1).drop_last() =~= ws.take(i));
        lemma_target_problem_stays(changes, ws, i + 1);
    } else {
        assert(ws.take(i) =~= ws);
    }
}

proof fn lemma_no_target_problem(changes: Seq<Seq<char>>, ws: Seq<Seq<char>>)
    requires
        write_target_problem(changes, ws) is None,
    ensures
        forall|w: Seq<char>| ws.contains(w) ==> derived(w) || expected_paths(changes).contains(w),
    decreases ws.len(),
{
    if ws.len() > 0 {
        lemma_no_target_problem(changes, ws.drop_last());
        assert forall|w: Seq<char>| ws.contains(w) implies derived(w) || expected_paths(changes).contains(w) by {
            let k = choose|k: int| 0 <= k < ws.len() && ws[k] == w;
            if k < ws.len() - 1 {
                assert(ws.drop_last()[k] == w);
                assert(ws.drop_last().contains(w));
            }
        }
    }
}

/// Check a knowledge plan's write targets (see `write_set_problem`): a
/// problem is an invalid knowledge plan.
pub fn validate_write_set(changes: &Vec<String>, writes: &Vec<KnowledgeWrite>) -> (r: Result<(), KbError>)
    ensures
        match write_set_problem(crate::text::views(changes@), write_paths(writes@)) {
            None => r is Ok,
            Some(m) => r matches Err(e) && e.code == ErrorCode::InvalidConfig && e.message@ == config_message(
                "knowledge plan"@,
                m,
            ),
        },
{
    let ghost cv = crate::text::views(changes@);
    let ghost wv = write_paths(writes@);
    let mut i: usize = 0;
    proof {
        assert(wv.take(0) =~= Seq::<Seq<char>>::empty());
    }
    while i < writes.len()
        invariant
            i <= writes@.len(),
            cv == crate::text::views(changes@),
            wv == write_paths(writes@),
            write_target_problem(cv, wv.take(i as int)) is None,
        decreases writes@.len() - i,
    {
        proof {
            assert(wv.take(i + 1).drop_last() =~= wv.take(i as int));
            assert(wv.take(i + 1).last() == wv[i as int]);
        }
        let p = chars_of(writes[i].path.as_str());
        if listed(writes, i, p.as_slice()) {
            proof {
                lemma_target_problem_stays(cv, wv, i + 1);
            }
            return Err(KbError::invalid_config("knowledge plan", "duplicate write target"));
        }
        let index = chars_of("Wiki/index.md");
        let log = chars_of("Wiki/log.md");
        if !equal_chars(p.as_slice(), index.as_slice()) && !equal_chars(p.as_slice(), log.as_slice()) && !requested(
            changes,
            p.as_slice(),
        ) {
            proof {
                lemma_target_problem_stays(cv, wv, i + 1);
            }
            let mut d = chars_of("unexpected write target ");
            append_chars(&mut d, p.as_slice());
            return Err(KbError::invalid_config("knowledge plan", string_of(d.as_slice()).as_str()));
        }
        i = i + 1;
    }
    proof {
        assert(wv.take(wv.len() as int) =~= wv);
        lemma_no_target_problem(cv, wv);
    }
    let index = chars_of("Wiki/index.md");
    let log = chars_of("Wiki/log.md");
    let mut complete = listed(writes, writes.len(), index.as_slice()) && listed(writes, writes.len(), log.as_slice());
    proof {
        assert(wv.take(wv.len() as int) =~= wv);
    }
    let mut j: usize = 0;
    while j < changes.len() && complete
        invariant
            j <= changes@.len(),
            cv == crate::text::views(changes@),
            wv == write_paths(writes@),
            complete ==> wv.contains("Wiki/index.md"@) && wv.contains("Wiki/log.md"@),
            complete ==> forall|k: int| 0 <= k < j ==> wv.contains("Wiki/"@ + #[trigger] cv[k]) && !derived("Wiki/"@ + cv[k]),
            index@ == "Wiki/index.md"@,
            log@ == "Wiki/log.md"@,
            !complete ==> write_set_problem(cv, wv) == Some("write set does not match requested and derived files"@),
            write_target_problem(cv, wv) is None,
        decreases changes@.len() - j,
    {
        let mut w = chars_of("Wiki/");
        append_chars(&mut w, chars_of(changes[j].as_str()).as_slice());
        proof {
            assert(w@ == "Wiki/"@ + cv[j as int]);
            assert(wv.take(wv.len() as int) =~= wv);
        }
        let is_derived = equal_chars(w.as_slice(), index.as_slice()) || equal_chars(w.as_slice(), log.as_slice());
        if is_derived || !listed(writes, writes.len(), w.as_slice()) {
            proof {
                assert(expected_paths(cv).contains(w@));
                assert(!wv.to_set().filter(|p: Seq<char>| !derived(p)).contains(w@));
            }
            complete = false;
        }
        j = j + 1;
    }
    if !complete {
        return Err(
            KbError::invalid_config("knowledge plan", "write set does not match requested and derived files"),
        );
    }
    proof {
        lemma_no_target_problem(cv, wv);
        assert(wv.to_set().filter(|p: Seq<char>| !derived(p)) =~= expected_paths(cv)) by {
            assert forall|p: Seq<char>| expected_paths(cv).contains(p) implies wv.to_set().filter(
                |q: Seq<char>| !derived(q),
            ).contains(p) by {
                let k = choose|k: int| 0 <= k < cv.len() && p == "Wiki/"@ + #[trigger] cv[k];
                assert(wv.contains("Wiki/"@ + cv[k]));
                assert(!derived(p));
            }
        }
    }
    Ok(())
}

/// A write as values.
pub struct WriteView {
    pub path: Seq<char>,
    pub before_sha256: Option<Seq<char>>,
    pub content: Seq<char>,
}

pub open spec fn write_views(ws: Seq<KnowledgeWrite>) -> Seq<WriteView> {
    ws.map_values(
        |w: KnowledgeWrite| WriteView { path: w.path@, before_sha256: crate::extract::opt_view(w.before_sha256), content: w.content@ },
    )
}

/// A recorded effect as values.
pub struct EffectView {
    pub path: Seq<char>,
    pub before: Option<Seq<u8>>,
    pub after_sha256: Seq<char>,
}

pub open spec fn effect_views(es: Seq<WriteEffect>) -> Seq<EffectView> {
    es.map_values(
        |e: WriteEffect| EffectView {
            path: e.path@,
            before: match e.before {
                Some(b) => Some(b@),
                None => None,
            },
            after_sha256: e.after_sha256@,
        },
    )
}

pub open spec fn digest_of(b: Seq<u8>) -> Seq<char> {
    hex_chars(sha256_digest(b))
}

/// A recorded effect is one of the plan's writes: same path, the SHA-256 of
/// the bytes before is the one planned, and the SHA-256 written is that of
/// the planned content.
pub open spec fn effect_planned(ws: Seq<WriteView>, e: EffectView) -> bool {
    exists|k: int|
        0 <= k < ws.len() && #[trigger] ws[k].path == e.path && ws[k].before_sha256 == match e.before {
            Some(b) => Some(digest_of(b)),
            None => None,
        } && digest_of(encode_utf8(ws[k].content)) == e.after_sha256
}

/// The first recorded effect that repeats a path or lies outside the plan,
/// as its message.
pub open spec fn effects_problem(ws: Seq<WriteView>, es: Seq<EffectView>) -> Option<Seq<char>>
    decreases es.len(),
{
    if es.len() == 0 {
        None
    } else {
        match effects_problem(ws, es.drop_last()) {
            Some(m) => Some(m),
            None => if exists|j: int| 0 <= j < es.len() - 1 && #[trigger] es[j].path == es.last().path {
                Some("Duplicate knowledge recovery path."@)
            } else if !effect_planned(ws, es.last()) {
                Some("Knowledge progress is outside its operation plan."@)
            } else {
                None
            },
        }
    }
}

/// What is wrong with recorded progress for a plan, if anything: another
/// operation's progress, or an effect that repeats a path or lies outside
/// the plan.
pub open spec fn progress_problem(
    plan_id: Seq<char>,
    ws: Seq<WriteView>,
    progress_id: Seq<char>,
    es: Seq<EffectView>,
) -> Option<Seq<char>> {
    if progress_id != plan_id {
        Some("Knowledge progress identity mismatch."@)
    } else {
        effects_problem(ws, es)
    }
}

/// The error for a knowledge plan that no longer matches what was reviewed.
pub fn stale(message: &str) -> (e: KbError)
    ensures
        e.code == ErrorCode::PlanStale,
        e.message@ == message@,
        !e.retryable,
        e.remediation@ == "Read the current Vault and create a new knowledge plan."@,
{
    KbError::new(ErrorCode::PlanStale, message, false, "Read the current Vault and create a new knowledge plan.")
}

/// A stored plan's bytes must hash (lowercase hexadecimal SHA-256) to the
/// digest recorded beside them; otherwise the plan is stale.
pub fn validate_digest(plan: &[u8], recorded: &str) -> (r: Result<(), KbError>)
    ensures
        r is Ok <==> hex_chars(sha256_digest(plan@)) == recorded@,
        r matches Err(e) ==> e.code == ErrorCode::PlanStale && e.message@ == "Reviewed plan contents changed."@
            && e.remediation@ == "Read the current Vault and create a new knowledge plan."@,
{
    let actual = hash(plan);
    if equal_chars(chars_of(actual.as_str()).as_slice(), chars_of(recorded).as_slice()) {
        Ok(())
    } else {
        Err(stale("Reviewed plan contents changed."))
    }
}

/// The error of progress that cannot be recovered.
pub fn recovery(message: &str) -> (e: KbError)
    ensures
        e.code == ErrorCode::VaultNeedsRecovery,
        e.message@ == message@,
        !e.retryable,
        e.remediation@ == "Retry the recorded kb apply operation; preserve files changed by other writers."@,
{
    KbError::new(
        ErrorCode::VaultNeedsRecovery,
        message,
        false,
        "Retry the recorded kb apply operation; preserve files changed by other writers.",
    )
}

fn effect_planned_exec(ws: &Vec<KnowledgeWrite>, e: &WriteEffect) -> (b: bool)
    ensures
        b == effect_planned(write_views(ws@), effect_views(seq![*e])[0]),
{
    let ghost wv = write_views(ws@);
    let ghost ev = effect_views(seq![*e])[0];
    let ep = chars_of(e.path.as_str());
    let before: Option<Vec<char>> = match &e.before {
        Some(b) => Some(chars_of(hash(b.as_slice()).as_str())),
        None => None,
    };
    let after = chars_of(e.after_sha256.as_str());
    let mut k: usize = 0;
    while k < ws.len()
        invariant
            k <= ws@.len(),
            wv == write_views(ws@),
            ev == effect_views(seq![*e])[0],
            ep@ == ev.path,
            after@ == ev.after_sha256,
            match before {
                Some(h) => ev.before matches Some(b) && h@ == digest_of(b),
                None => ev.before is None,
            },
            forall|j: int|
                0 <= j < k ==> !(#[trigger] wv[j].path == ev.path && wv[j].before_sha256 == match ev.before {
                    Some(b) => Some(digest_of(b)),
                    None => None,
                } && digest_of(encode_utf8(wv[j].content)) == ev.after_sha256),
        decreases ws@.len() - k,
    {
        let w = &ws[k];
        let wp = chars_of(w.path.as_str());
        let same_before = match (&w.before_sha256, &before) {
            (Some(x), Some(h)) => equal_chars(chars_of(x.as_str()).as_slice(), h.as_slice()),
            (None, None) => true,
            _ => false,
        };
        let written = chars_of(hash(w.content.as_str().as_bytes()).as_str());
        if equal_chars(wp.as_slice(), ep.as_slice()) && same_before && equal_chars(written.as_slice(), after.as_slice()) {
            proof {
                assert(wv[k as int].path == ev.path);
            }
            return true;
        }
        proof {
            assert(wv[k as int].path == w.path@);
        }
        k = k + 1;
    }
    false
}

proof fn lemma_effects_problem_stays(ws: Seq<WriteView>, es: Seq<EffectView>, i: int)
    requires
        0 <= i <= es.len(),
        effects_problem(ws, es.take(i)) is Some,
    ensures
        effects_problem(ws, es) == effects_problem(ws, es.take(i)),
    decreases es.len() - i,
{
    if i < es.len() {
        assert(es.take(i + 1).drop_last() =~= es.take(i));
        lemma_effects_problem_stays(ws, es, i + 1);
    } else {
        assert(es.take(i) =~= es);
    }
}

/// Check recorded progress against its plan (see `progress_problem`): a
/// problem needs recovery by hand.
pub fn validate_progress(
    plan_id: &str,
    writes: &Vec<KnowledgeWrite>,
    progress_id: &str,
    entries: &Vec<WriteEffect>,
) -> (r: Result<(), KbError>)
    ensures
        match progress_problem(plan_id@, write_views(writes@), progress_id@, effect_views(entries@)) {
            None => r is Ok,
            Some(m) => r matches Err(e) && e.code == ErrorCode::VaultNeedsRecovery && e.message@ == m,
        },
{
    if !equal_chars(chars_of(progress_id).as_slice(), chars_of(plan_id).as_slice()) {
        return Err(recovery("Knowledge progress identity mismatch."));
    }
    let ghost wv = write_views(writes@);
    let ghost ev = effect_views(entries@);
    let mut i: usize = 0;
    proof {
        assert(ev.take(0) =~= Seq::<EffectView>::empty());
    }
    while i < entries.len()
        invariant
            i <= entries@.len(),
            wv == write_views(writes@),
            ev == effect_views(entries@),
            progress_id@ == plan_id@,
            effects_problem(wv, ev.take(i as int)) is None,
        decreases entries@.len() - i,
    {
        let ghost t = ev.take(i + 1);
        proof {
            assert(t.drop_last() =~= ev.take(i as int));
            assert(t.last() == ev[i as int]);
            assert(effect_views(seq![entries@[i as int]])[0] == ev[i as int]);
        }
        let p = chars_of(entries[i].path.as_str());
        let mut j: usize = 0;
        let mut seen = false;
        while j < i && !seen
            invariant
                j <= i,
                i < entries@.len(),
                ev == effect_views(entries@),
                p@ == ev[i as int].path,
                seen ==> exists|x: int| 0 <= x < i && #[trigger] ev[x].path == ev[i as int].path,
                !seen ==> forall|x: int| 0 <= x < j ==> #[trigger] ev[x].path != ev[i as int].path,
            decreases i - j,
        {
            if equal_chars(chars_of(entries[j].path.as_str()).as_slice(), p.as_slice()) {
                proof {
                    assert(ev[j as int].path == ev[i as int].path);
                }
                seen = true;
            }
            j = j + 1;
        }
        proof {
            if seen {
                let x = choose|x: int| 0 <= x < i && #[trigger] ev[x].path == ev[i as int].path;
                assert(t[x].path == t.last().path);
            } else {
                assert forall|x: int| 0 <= x < t.len() - 1 implies #[trigger] t[x].path != t.last().path by {
                    assert(t[x] == ev[x]);
                }
            }
        }
        if seen {
            proof {
                lemma_effects_problem_stays(wv, ev, i + 1);
            }
            return Err(recovery("Duplicate knowledge recovery path."));
        }
        if !effect_planned_exec(writes, &entries[i]) {
            proof {
                lemma_effects_problem_stays(wv, ev, i + 1);
            }
            return Err(recovery("Knowledge progress is outside its operation plan."));
        }
        i = i + 1;
    }
    proof {
        assert(ev.take(ev.len() as int) =~= ev);
    }
    Ok(())
}

/// One step that undoes a recorded write: put back the bytes a file had, or
/// remove a file the write created.
#[derive(Debug, Clone)]
pub enum RestoreStep {
    Write { path: String, bytes: Vec<u8> },
    Remove { path: String },
}

/// A restore step as values.
pub enum StepView {
    Write { path: Seq<char>, bytes: Seq<u8> },
    Remove { path: Seq<char> },
}

pub open spec fn step_view(s: RestoreStep) -> StepView {
    match s {
        RestoreStep::Write { path, bytes } => StepView::Write { path: path@, bytes: bytes@ },
        RestoreStep::Remove { path } => StepView::Remove { path: path@ },
    }
}

pub open spec fn step_views(s: Seq<RestoreStep>) -> Seq<StepView> {
    s.map_values(|x: RestoreStep| step_view(x))
}

/// The step that undoes a recorded write.
pub open spec fn undo_step(e: EffectView) -> StepView {
    match e.before {
        Some(b) => StepView::Write { path: e.path, bytes: b },
        None => StepView::Remove { path: e.path },
    }
}

/// The message of a file another writer changed after a recorded write.
pub open spec fn preserved_message(path: Seq<char>, final_period: bool) -> Seq<char> {
    "Preserved independently changed "@ + path + if final_period { "."@ } else { Seq::empty() }
}

/// Undoing recorded writes, last first, given each file's current digest
/// (none when it is missing): a file already as it was before is left
/// alone; one with the digest written is put back; one with any other
/// content was changed by another writer, so undoing stops there with an
/// error and that file is preserved. The steps are those taken before any
/// stop.
pub open spec fn restore_outcome(
    es: Seq<EffectView>,
    current: Seq<Option<Seq<char>>>,
    final_period: bool,
) -> (Seq<StepView>, Option<Seq<char>>)
    decreases es.len(),
{
    if es.len() == 0 || current.len() != es.len() {
        (Seq::empty(), None)
    } else {
        let e = es.last();
        let c = current.last();
        let before = match e.before {
            Some(b) => Some(digest_of(b)),
            None => None,
        };
        if c == before {
            restore_outcome(es.drop_last(), current.drop_last(), final_period)
        } else if c != Some(e.after_sha256) {
            (Seq::empty(), Some(preserved_message(e.path, final_period)))
        } else {
            let (steps, stop) = restore_outcome(es.drop_last(), current.drop_last(), final_period);
            (seq![undo_step(e)] + steps, stop)
        }
    }
}

pub open spec fn text_views(v: Seq<Option<String>>) -> Seq<Option<Seq<char>>> {
    v.map_values(|o: Option<String>| crate::extract::opt_view(o))
}

fn same_digest(a: &Option<String>, b: &Option<String>) -> (r: bool)
    ensures
        r == (crate::extract::opt_view(*a) == crate::extract::opt_view(*b)),
{
    match (a, b) {
        (Some(x), Some(y)) => equal_chars(chars_of(x.as_str()).as_slice(), chars_of(y.as_str()).as_slice()),
        (None, None) => true,
        _ => false,
    }
}

/// The steps that undo recorded writes (see `restore_outcome`), and the
/// error that stopped them, if any.
pub fn restore_steps(
    effects: &Vec<WriteEffect>,
    current: &Vec<Option<String>>,
    final_period: bool,
) -> (r: (Vec<RestoreStep>, Option<KbError>))
    requires
        current@.len() == effects@.len(),
    ensures
        ({
            let (steps, stop) = restore_outcome(effect_views(effects@), text_views(current@), final_period);
            &&& step_views(r.0@) == steps
            &&& match stop {
                None => r.1 is None,
                Some(m) => r.1 matches Some(e) && e.code == ErrorCode::VaultNeedsRecovery && e.message@ == m,
            }
        }),
{
    let ghost ev = effect_views(effects@);
    let ghost cv = text_views(current@);
    let mut steps: Vec<RestoreStep> = Vec::new();
    let mut i: usize = effects.len();
    proof {
        assert(ev.take(i as int) =~= ev);
        assert(cv.take(i as int) =~= cv);
    }
    while i > 0
        invariant
            i <= effects@.len(),
            current@.len() == effects@.len(),
            ev == effect_views(effects@),
            cv == text_views(current@),
            ({
                let (t, stop) = restore_outcome(ev.take(i as int), cv.take(i as int), final_period);
                restore_outcome(ev, cv, final_period) == (step_views(steps@) + t, stop)
            }),
        decreases i,
    {
        let k = i - 1;
        let e = &effects[k];
        proof {
            assert(ev.take(i as int).drop_last() =~= ev.take(k as int));
            assert(cv.take(i as int).drop_last() =~= cv.take(k as int));
            assert(ev.take(i as int).last() == ev[k as int]);
            assert(cv.take(i as int).last() == cv[k as int]);
        }
        let before = match &e.before {
            Some(b) => Some(hash(b.as_slice())),
            None => None,
        };
        if same_digest(&current[k], &before) {
            i = k;
        } else {
            let after = Some(e.after_sha256.clone());
            if !same_digest(&current[k], &after) {
                let mut m = chars_of("Preserved independently changed ");
                append_chars(&mut m, chars_of(e.path.as_str()).as_slice());
                if final_period {
                    append_chars(&mut m, chars_of(".").as_slice());
                }
                proof {
                    assert(step_views(steps@) + Seq::<StepView>::empty() =~= step_views(steps@));
                    if !final_period {
                        assert(m@ =~= preserved_message(e.path@, final_period));
                    }
                }
                return (steps, Some(recovery(string_of(m.as_slice()).as_str())));
            }
            let step = match &e.before {
                Some(b) => RestoreStep::Write { path: e.path.clone(), bytes: b.clone() },
                None => RestoreStep::Remove { path: e.path.clone() },
            };
            let ghost old_steps = steps@;
            steps.push(step);
            proof {
                assert(step_view(step) == undo_step(ev[k as int]));
                assert(step_views(steps@) =~= step_views(old_steps).push(step_view(step)));
                let (t, stop) = restore_outcome(ev.take(k as int), cv.take(k as int), final_period);
                assert(step_views(old_steps) + (seq![undo_step(ev[k as int])] + t) =~= step_views(steps@) + t);
            }
            i = k;
        }
    }
    proof {
        assert(ev.take(0) =~= Seq::<EffectView>::empty());
        assert(step_views(steps@) + Seq::<StepView>::empty() =~= step_views(steps@));
    }
    (steps, None)
}

/// The file is as the recorded write found it or as it left it.
pub open spec fn ours_or_untouched(e: EffectView, c: Option<Seq<char>>) -> bool {
    c == (match e.before {
        Some(b) => Some(digest_of(b)),
        None => None,
    }) || c == Some(e.after_sha256)
}

/// When no other writer changed any file a failed apply wrote, undoing the
/// recorded writes never stops: every written file is put back.
pub proof fn undoing_unshared_writes_never_stops(es: Seq<EffectView>, current: Seq<Option<Seq<char>>>, final_period: bool)
    requires
        current.len() == es.len(),
        forall|i: int| 0 <= i < es.len() ==> ours_or_untouched(#[trigger] es[i], current[i]),
    ensures
        restore_outcome(es, current, final_period).1 is None,
    decreases es.len(),
{
    if es.len() > 0 {
        let k = es.len() - 1;
        assert(ours_or_untouched(es[k], current[k]));
        assert forall|i: int| 0 <= i < es.drop_last().len() implies ours_or_untouched(
            #[trigger] es.drop_last()[i],
            current.drop_last()[i],
        ) by {
            assert(ours_or_untouched(es[i], current[i]));
        }
        undoing_unshared_writes_never_stops(es.drop_last(), current.drop_last(), final_period);
    }
}

/// Undoing only ever touches files that still hold what the recorded write
/// put there: each step undoes a write whose file has the digest written, so
/// a file another writer changed is never overwritten.
pub proof fn undoing_preserves_other_writers(es: Seq<EffectView>, current: Seq<Option<Seq<char>>>, final_period: bool)
    requires
        current.len() == es.len(),
    ensures
        forall|j: int|
            0 <= j < restore_outcome(es, current, final_period).0.len() ==> exists|i: int|
                0 <= i < es.len() && current[i] == Some(es[i].after_sha256) && #[trigger] restore_outcome(
                    es,
                    current,
                    final_period,
                ).0[j] == undo_step(es[i]),
    decreases es.len(),
{
    if es.len() > 0 {
        let k = es.len() - 1;
        let d = es.drop_last();
        let c = current.drop_last();
        undoing_preserves_other_writers(d, c, final_period);
        let out = restore_outcome(es, current, final_period).0;
        let rest = restore_outcome(d, c, final_period).0;
        assert forall|j: int| 0 <= j < out.len() implies exists|i: int|
            0 <= i < es.len() && current[i] == Some(es[i].after_sha256) && #[trigger] out[j] == undo_step(es[i]) by {
            let before = match es[k].before {
                Some(b) => Some(digest_of(b)),
                None => None,
            };
            if current[k] == before {
                assert(out == rest);
                let i = choose|i: int| 0 <= i < d.len() && c[i] == Some(d[i].after_sha256) && #[trigger] rest[j] == undo_step(d[i]);
                assert(d[i] == es[i] && c[i] == current[i]);
            } else if current[k] != Some(es[k].after_sha256) {
                assert(out.len() == 0);
            } else {
                assert(out == seq![undo_step(es[k])] + rest);
                if j == 0 {
                    assert(out[0] == undo_step(es[k]));
                } else {
                    assert(out[j] == rest[j - 1]);
                    let i = choose|i: int| 0 <= i < d.len() && c[i] == Some(d[i].after_sha256) && #[trigger] rest[j - 1] == undo_step(d[i]);
                    assert(d[i] == es[i] && c[i] == current[i]);
                }
            }
        }
    }
}

pub open spec fn bytes_of(o: Option<Vec<u8>>) -> Option<Seq<u8>> {
    match o {
        Some(b) => Some(b@),
        None => None,
    }
}

/// The digest of a file's current bytes, none when it is missing.
pub open spec fn current_digest(o: Option<Vec<u8>>) -> Option<Seq<char>> {
    match o {
        Some(b) => Some(digest_of(b@)),
        None => None,
    }
}

/// The effect recorded before a planned write is made, given the file's
/// current bytes (none when it is missing): the file must still have the
/// digest the plan saw, and the effect keeps those bytes and the digest of
/// the content about to be written.
pub fn record_effect(w: &KnowledgeWrite, current: Option<Vec<u8>>) -> (r: Result<WriteEffect, KbError>)
    ensures
        r is Ok <==> current_digest(current) == crate::extract::opt_view(w.before_sha256),
        r matches Ok(e) ==> e.path@ == w.path@ && e.after_sha256@ == digest_of(encode_utf8(w.content@)) && bytes_of(
            e.before,
        ) == bytes_of(current),
        r matches Err(e) ==> e.code == ErrorCode::PlanStale && e.message@ == w.path@ + " changed before saving."@
            && e.remediation@ == "Read the current Vault and create a new knowledge plan."@,
{
    let seen = match &current {
        Some(b) => Some(hash(b.as_slice())),
        None => None,
    };
    let same = match (&seen, &w.before_sha256) {
        (Some(x), Some(y)) => equal_chars(chars_of(x.as_str()).as_slice(), chars_of(y.as_str()).as_slice()),
        (None, None) => true,
        _ => false,
    };
    if !same {
        let mut m = chars_of(w.path.as_str());
        append_chars(&mut m, chars_of(" changed before saving.").as_slice());
        return Err(
            KbError::new(
                ErrorCode::PlanStale,
                string_of(m.as_slice()).as_str(),
                false,
                "Read the current Vault and create a new knowledge plan.",
            ),
        );
    }
    Ok(WriteEffect { path: w.path.clone(), before: current, after_sha256: hash(w.content.as_str().as_bytes()) })
}

/// Which reviewed operation is applied: a knowledge save or a source capture.
#[derive(Debug, Clone, Copy, PartialEq, Eq, Structural)]
pub enum ApplyKind {
    Knowledge,
    Capture,
}

/// Where the apply of a reviewed operation stands.
#[derive(Debug, Clone, Copy, PartialEq, Eq, Structural)]
pub enum ApplyStage {
    Start,
    Locking,
    Applying,
    Configuring,
    Restoring,
    Checking,
    Saving,
    Committing,
    Recording,
    Finishing,
    Done,
}

/// What the loop around an apply observed after its last action.
pub enum ApplyEvent {
    /// The stored plan was read: whether its bytes have the recorded digest
    /// and whether its identity, kind, version and target fit the operation.
    PlanRead { digest_matches: bool, identity_matches: bool },
    /// The Vault is locked: whether an operation of the other kind waits for
    /// recovery, the id of an operation of this kind that waits (if any), and
    /// whether a receipt is stored (with whether its identity fits).
    Locked { other_pending: bool, pending: Option<String>, receipt: Option<bool> },
    /// The event the last action asked for was recorded.
    Recorded,
    /// The configuration was loaded: whether its schema is current and its
    /// Vault the plan's, the check of the plan's write set, and whether
    /// progress of an interrupted save is stored.
    Configured { schema_current: bool, same_vault: bool, write_set: Result<(), KbError>, progress_stored: bool },
    /// An interrupted save was restored.
    Restored,
    /// The plan's targets were checked against the Vault.
    Checked(Result<(), KbError>),
    /// The plan's writes were saved.
    Saved,
    /// The receipt was written.
    Committed,
    /// An outside step failed.
    Failed(KbError),
}

/// What the loop around an apply does next.
pub enum ApplyAction {
    ReadPlan,
    Lock,
    /// Remove the marker and progress, record the operation as applied, and tidy up.
    FinishFromReceipt,
    RecordApplying,
    LoadConfig,
    /// Record the recovery, then restore the interrupted operation's files.
    Restore,
    CheckTargets,
    SaveWrites,
    WriteReceipt,
    RecordApplied,
    /// Stop: the operation is complete.
    Complete,
    /// Stop with this error.
    Fail(KbError),
}

/// The action as values: an error by its code, message and remediation.
pub enum ActionView {
    ReadPlan,
    Lock,
    FinishFromReceipt,
    RecordApplying,
    LoadConfig,
    Restore,
    CheckTargets,
    SaveWrites,
    WriteReceipt,
    RecordApplied,
    Complete,
    Fail(ErrorCode, Seq<char>, Seq<char>),
}

pub open spec fn action_view(a: ApplyAction) -> ActionView {
    match a {
        ApplyAction::ReadPlan => ActionView::ReadPlan,
        ApplyAction::Lock => ActionView::Lock,
        ApplyAction::FinishFromReceipt => ActionView::FinishFromReceipt,
        ApplyAction::RecordApplying => ActionView::RecordApplying,
        ApplyAction::LoadConfig => ActionView::LoadConfig,
        ApplyAction::Restore => ActionView::Restore,
        ApplyAction::CheckTargets => ActionView::CheckTargets,
        ApplyAction::SaveWrites => ActionView::SaveWrites,
        ApplyAction::WriteReceipt => ActionView::WriteReceipt,
        ApplyAction::RecordApplied => ActionView::RecordApplied,
        ApplyAction::Complete => ActionView::Complete,
        ApplyAction::Fail(e) => ActionView::Fail(e.code, e.message@, e.remediation@),
    }
}

pub open spec fn fail_with(e: KbError) -> (ApplyStage, ActionView) {
    (ApplyStage::Done, ActionView::Fail(e.code, e.message@, e.remediation@))
}

pub open spec fn recovery_remediation() -> Seq<char> {
    "Retry the recorded kb apply operation; preserve files changed by other writers."@
}

/// A failure that needs recovery first.
pub open spec fn needs_recovery(message: Seq<char>) -> (ApplyStage, ActionView) {
    (ApplyStage::Done, ActionView::Fail(ErrorCode::VaultNeedsRecovery, message, recovery_remediation()))
}

/// A plan that no longer fits the Vault, with the remediation of its kind.
pub open spec fn stale_plan(kind: ApplyKind, message: Seq<char>) -> (ApplyStage, ActionView) {
    (ApplyStage::Done, ActionView::Fail(
        ErrorCode::PlanStale,
        message,
        if kind == ApplyKind::Knowledge {
            "Read the current Vault and create a new knowledge plan."@
        } else {
            "Run kb review and inspect a fresh plan."@
        },
    ))
}

pub open spec fn plan_subject(kind: ApplyKind) -> Seq<char> {
    if kind == ApplyKind::Knowledge { "knowledge plan"@ } else { "source plan"@ }
}

pub open spec fn identity_detail(kind: ApplyKind) -> Seq<char> {
    if kind == ApplyKind::Knowledge { "identity, kind, version, or target mismatch"@ } else { "identity or version mismatch"@ }
}

pub open spec fn other_pending_message(kind: ApplyKind) -> Seq<char> {
    if kind == ApplyKind::Knowledge {
        "An interrupted source capture needs recovery first."@
    } else {
        "An interrupted knowledge save needs recovery first."@
    }
}

pub open spec fn pending_message(kind: ApplyKind, pending: Seq<char>) -> Seq<char> {
    (if kind == ApplyKind::Knowledge { "Another knowledge operation "@ } else { "Another source operation "@ }) + pending
        + " is pending."@
}

pub open spec fn receipt_message(kind: ApplyKind) -> Seq<char> {
    if kind == ApplyKind::Knowledge { "Knowledge receipt identity mismatch."@ } else { "Receipt identity mismatch."@ }
}

/// The next stage and action of applying operation `id` of `kind` after
/// `event`: the plan must keep its digest (else it is stale) and identity;
/// once locked, a waiting operation of the other kind, or another waiting
/// operation of this kind, needs recovery first; a stored receipt of this
/// operation finishes it (one of another needs recovery); otherwise the
/// operation is recorded as applying, the configuration must keep the plan's
/// schema and Vault (else the plan is stale) and its writes must be sound,
/// an interrupted operation is restored, the targets are checked, the writes
/// saved, the receipt written and the operation recorded as applied. Any
/// failure stops it; an event that does not fit the stage stops it as
/// needing recovery.
pub open spec fn apply_next(kind: ApplyKind, id: Seq<char>, stage: ApplyStage, event: ApplyEvent) -> (ApplyStage, ActionView) {
    match event {
        ApplyEvent::Failed(e) => fail_with(e),
        ApplyEvent::PlanRead { digest_matches, identity_matches } => if stage != ApplyStage::Start {
            needs_recovery("Apply steps are out of order."@)
        } else if !digest_matches {
            stale_plan(kind, "Reviewed plan contents changed."@)
        } else if !identity_matches {
            (ApplyStage::Done, ActionView::Fail(
                ErrorCode::InvalidConfig,
                config_message(plan_subject(kind), identity_detail(kind)),
                "Correct the reported configuration value."@,
            ))
        } else {
            (ApplyStage::Locking, ActionView::Lock)
        },
        ApplyEvent::Locked { other_pending, pending, receipt } => if stage != ApplyStage::Locking {
            needs_recovery("Apply steps are out of order."@)
        } else if other_pending {
            needs_recovery(other_pending_message(kind))
        } else if pending matches Some(p) && p@ != id {
            needs_recovery(pending_message(kind, pending->Some_0@))
        } else {
            match receipt {
                Some(false) => needs_recovery(receipt_message(kind)),
                Some(true) => (ApplyStage::Finishing, ActionView::FinishFromReceipt),
                None => (ApplyStage::Applying, ActionView::RecordApplying),
            }
        },
        ApplyEvent::Recorded => if stage == ApplyStage::Applying {
            (ApplyStage::Configuring, ActionView::LoadConfig)
        } else if stage == ApplyStage::Finishing {
            (ApplyStage::Done, ActionView::Complete)
        } else if stage == ApplyStage::Recording {
            (ApplyStage::Done, ActionView::Complete)
        } else {
            needs_recovery("Apply steps are out of order."@)
        },
        ApplyEvent::Configured { schema_current, same_vault, write_set, progress_stored } => if stage != ApplyStage::Configuring {
            needs_recovery("Apply steps are out of order."@)
        } else if !schema_current || !same_vault {
            stale_plan(kind, "Vault schema or identity changed."@)
        } else {
            match write_set {
                Err(e) => fail_with(e),
                Ok(()) => if progress_stored {
                    (ApplyStage::Restoring, ActionView::Restore)
                } else {
                    (ApplyStage::Checking, ActionView::CheckTargets)
                },
            }
        },
        ApplyEvent::Restored => if stage == ApplyStage::Restoring {
            (ApplyStage::Checking, ActionView::CheckTargets)
        } else {
            needs_recovery("Apply steps are out of order."@)
        },
        ApplyEvent::Checked(r) => if stage != ApplyStage::Checking {
            needs_recovery("Apply steps are out of order."@)
        } else {
            match r {
                Err(e) => fail_with(e),
                Ok(()) => (ApplyStage::Saving, ActionView::SaveWrites),
            }
        },
        ApplyEvent::Saved => if stage == ApplyStage::Saving {
            (ApplyStage::Committing, ActionView::WriteReceipt)
        } else {
            needs_recovery("Apply steps are out of order."@)
        },
        ApplyEvent::Committed => if stage == ApplyStage::Committing {
            (ApplyStage::Recording, ActionView::RecordApplied)
        } else {
            needs_recovery("Apply steps are out of order."@)
        },
    }
}

fn out_of_order() -> (r: (ApplyStage, ApplyAction))
    ensures
        (r.0, action_view(r.1)) == needs_recovery("Apply steps are out of order."@),
{
    (ApplyStage::Done, ApplyAction::Fail(recovery("Apply steps are out of order.")))
}

fn stale_of(kind: ApplyKind, message: &str) -> (r: (ApplyStage, ApplyAction))
    ensures
        (r.0, action_view(r.1)) == stale_plan(kind, message@),
{
    match kind {
        ApplyKind::Knowledge => (ApplyStage::Done, ApplyAction::Fail(stale(message))),
        ApplyKind::Capture => (ApplyStage::Done, ApplyAction::Fail(crate::source_apply::stale(message))),
    }
}

/// One step of applying operation `id` of `kind` (see `apply_next`): the
/// loop starts at `ApplyStage::Start` with `ApplyAction::ReadPlan`, performs
/// each action and hands back what it observed.
pub fn apply_step(kind: ApplyKind, id: &str, stage: ApplyStage, event: ApplyEvent) -> (r: (ApplyStage, ApplyAction))
    ensures
        (r.0, action_view(r.1)) == apply_next(kind, id@, stage, event),
{
    match event {
        ApplyEvent::Failed(e) => (ApplyStage::Done, ApplyAction::Fail(e)),
        ApplyEvent::PlanRead { digest_matches, identity_matches } => {
            if stage != ApplyStage::Start {
                out_of_order()
            } else if !digest_matches {
                stale_of(kind, "Reviewed plan contents changed.")
            } else if !identity_matches {
                let e = match kind {
                    ApplyKind::Knowledge => KbError::invalid_config("knowledge plan", "identity, kind, version, or target mismatch"),
                    ApplyKind::Capture => KbError::invalid_config("source plan", "identity or version mismatch"),
                };
                (ApplyStage::Done, ApplyAction::Fail(e))
            } else {
                (ApplyStage::Locking, ApplyAction::Lock)
            }
        },
        ApplyEvent::Locked { other_pending, pending, receipt } => {
            if stage != ApplyStage::Locking {
                return out_of_order();
            }
            if other_pending {
                let m = match kind {
                    ApplyKind::Knowledge => "An interrupted source capture needs recovery first.",
                    ApplyKind::Capture => "An interrupted knowledge save needs recovery first.",
                };
                return (ApplyStage::Done, ApplyAction::Fail(recovery(m)));
            }
            match &pending {
                Some(p) => {
                    if !equal_chars(chars_of(p.as_str()).as_slice(), chars_of(id).as_slice()) {
                        let mut m = match kind {
                            ApplyKind::Knowledge => chars_of("Another knowledge operation "),
                            ApplyKind::Capture => chars_of("Another source operation "),
                        };
                        append_chars(&mut m, chars_of(p.as_str()).as_slice());
                        append_chars(&mut m, chars_of(" is pending.").as_slice());
                        let text = string_of(m.as_slice());
                        return (ApplyStage::Done, ApplyAction::Fail(recovery(text.as_str())));
                    }
                },
                None => {},
            }
            match receipt {
                Some(false) => {
                    let m = match kind {
                        ApplyKind::Knowledge => "Knowledge receipt identity mismatch.",
                        ApplyKind::Capture => "Receipt identity mismatch.",
                    };
                    (ApplyStage::Done, ApplyAction::Fail(recovery(m)))
                },
                Some(true) => (ApplyStage::Finishing, ApplyAction::FinishFromReceipt),
                None => (ApplyStage::Applying, ApplyAction::RecordApplying),
            }
        },
        ApplyEvent::Recorded => {
            if stage == ApplyStage::Applying {
                (ApplyStage::Configuring, ApplyAction::LoadConfig)
            } else if stage == ApplyStage::Finishing || stage == ApplyStage::Recording {
                (ApplyStage::Done, ApplyAction::Complete)
            } else {
                out_of_order()
            }
        },
        ApplyEvent::Configured { schema_current, same_vault, write_set, progress_stored } => {
            if stage != ApplyStage::Configuring {
                out_of_order()
            } else if !schema_current || !same_vault {
                stale_of(kind, "Vault schema or identity changed.")
            } else {
                match write_set {
                    Err(e) => (ApplyStage::Done, ApplyAction::Fail(e)),
                    Ok(()) => {
                        if progress_stored {
                            (ApplyStage::Restoring, ApplyAction::Restore)
                        } else {
                            (ApplyStage::Checking, ApplyAction::CheckTargets)
                        }
                    },
                }
            }
        },
        ApplyEvent::Restored => {
            if stage == ApplyStage::Restoring {
                (ApplyStage::Checking, ApplyAction::CheckTargets)
            } else {
                out_of_order()
            }
        },
        ApplyEvent::Checked(r) => {
            if stage != ApplyStage::Checking {
                out_of_order()
            } else {
                match r {
                    Err(e) => (ApplyStage::Done, ApplyAction::Fail(e)),
                    Ok(()) => (ApplyStage::Saving, ApplyAction::SaveWrites),
                }
            }
        },
        ApplyEvent::Saved => {
            if stage == ApplyStage::Saving {
                (ApplyStage::Committing, ApplyAction::WriteReceipt)
            } else {
                out_of_order()
            }
        },
        ApplyEvent::Committed => {
            if stage == ApplyStage::Committing {
                (ApplyStage::Recording, ApplyAction::RecordApplied)
            } else {
                out_of_order()
            }
        },
    }
}

} // verus!
