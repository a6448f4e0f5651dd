//! Upgrading a Vault's product files: which files to create, update or
//! leave, which conflicts block the upgrade, and the preview diff.
use vstd::prelude::*;
use crate::config::prefixed_lines;
use crate::source_io::{hash, hex_chars, sha256_digest};
use crate::template::{lf_text, managed_rules, replace_rules, rules_region, text_equal, with_rules};
use crate::text::{append_chars, chars_of, lines, lines_of, string_of, views, vviews};

verus! {

/// Whether an upgrade creates a file or updates one.
#[derive(Debug, Clone, Copy, PartialEq, Eq, Structural)]
pub enum VaultUpgradeAction {
    Create,
    Update,
}

/// One planned file write with the digests before and after.
#[derive(Debug, Clone)]
pub struct VaultUpgradeWrite {
    pub path: String,
    pub action: VaultUpgradeAction,
    pub before_sha256: Option<String>,
    pub after_sha256: String,
    pub content: String,
}

/// A file the upgrade will not touch, and why.
#[derive(Debug, Clone)]
pub struct VaultUpgradeConflict {
    pub path: String,
    pub reason: String,
    pub next_action: String,
}

/// The write that puts `content` at `path`, over the current text if any.
pub fn write_for(path: &str, before: Option<&str>, content: String) -> (w: VaultUpgradeWrite)
    ensures
        w.path@ == path@,
        w.action == (if before is Some { VaultUpgradeAction::Update } else { VaultUpgradeAction::Create }),
        match before {
            Some(b) => w.before_sha256 matches Some(h) && h@ == hex_chars(sha256_digest(vstd::utf8::encode_utf8(b@))),
            None => w.before_sha256 is None,
        },
        w.after_sha256@ == hex_chars(sha256_digest(vstd::utf8::encode_utf8(content@))),
        w.content == content,
{
    let before_sha256 = match before {
        Some(b) => Some(hash(b.as_bytes())),
        None => None,
    };
    let after_sha256 = hash(content.as_str().as_bytes());
    VaultUpgradeWrite {
        path: path.to_owned(),
        action: if before.is_some() { VaultUpgradeAction::Update } else { VaultUpgradeAction::Create },
        before_sha256,
        after_sha256,
        content,
    }
}

/// What the upgrade does with one file.
#[derive(Debug, Clone)]
pub enum FileStep {
    Keep,
    Write(String),
    Conflict,
}

pub open spec fn step_view(s: FileStep) -> Option<Option<Seq<char>>> {
    match s {
        FileStep::Keep => Some(None),
        FileStep::Write(c) => Some(Some(c@)),
        FileStep::Conflict => None,
    }
}

/// What to do with `KB.md`: write the target when it is missing or matches
/// a known older release; keep it when it matches the target; for a file
/// with a rules region, replace the region's content when it differs from
/// the target's; conflict otherwise.
pub open spec fn rules_step(current: Option<Seq<char>>, target: Seq<char>, baselines: Seq<Seq<char>>) -> Option<Option<Seq<char>>> {
    match current {
        None => Some(Some(target)),
        Some(v) => if lf_text(v) == lf_text(target) {
            Some(None)
        } else if exists|i: int| 0 <= i < baselines.len() && lf_text(v) == lf_text(#[trigger] baselines[i]) {
            Some(Some(target))
        } else if rules_region(v) is Ok {
            let expected = match rules_region(target) {
                Ok((a, b)) => target.subrange(a, b),
                Err(_) => Seq::empty(),
            };
            let (a, b) = rules_region(v)->Ok_0;
            if v.subrange(a, b) != expected {
                Some(Some(with_rules(v, a, b, expected)))
            } else {
                Some(None)
            }
        } else {
            None
        },
    }
}

/// The step for `KB.md` (see `rules_step`).
pub fn plan_rules(current: Option<&str>, target: &str, baselines: &Vec<String>) -> (s: FileStep)
    ensures
        step_view(s) == rules_step(match current { Some(c) => Some(c@), None => None }, target@, views(baselines@)),
{
    let v = match current {
        None => {
            return FileStep::Write(target.to_owned());
        },
        Some(v) => v,
    };
    if text_equal(v, target) {
        return FileStep::Keep;
    }
    let mut i: usize = 0;
    while i < baselines.len()
        invariant
            i <= baselines@.len(),
            current == Some(v),
            lf_text(v@) != lf_text(target@),
            forall|k: int| 0 <= k < i ==> lf_text(v@) != lf_text(#[trigger] views(baselines@)[k]),
        decreases baselines@.len() - i,
    {
        if text_equal(v, baselines[i].as_str()) {
            proof {
                assert(views(baselines@)[i as int] == baselines@[i as int]@);
                assert(lf_text(v@) == lf_text(views(baselines@)[i as int]));
            }
            return FileStep::Write(target.to_owned());
        }
        proof {
            assert(views(baselines@)[i as int] == baselines@[i as int]@);
        }
        i = i + 1;
    }
    match managed_rules(v) {
        Some(region) => {
            let expected = match managed_rules(target) {
                Some(e) => e,
                None => String::new(),
            };
            if region != expected {
                FileStep::Write(replace_rules(v, expected.as_str()))
            } else {
                FileStep::Keep
            }
        },
        None => FileStep::Conflict,
    }
}

/// What to do with a wholly product-owned file: write it when missing, keep
/// it when it matches the target, conflict otherwise.
pub open spec fn whole_file_step(current: Option<Seq<char>>, target: Seq<char>) -> Option<Option<Seq<char>>> {
    match current {
        None => Some(Some(target)),
        Some(v) => if lf_text(v) == lf_text(target) { Some(None) } else { None },
    }
}

/// The step for a wholly product-owned file (see `whole_file_step`).
pub fn plan_whole_file(current: Option<&str>, target: &str) -> (s: FileStep)
    ensures
        step_view(s) == whole_file_step(match current { Some(c) => Some(c@), None => None }, target@),
{
    match current {
        None => FileStep::Write(target.to_owned()),
        Some(v) => {
            if text_equal(v, target) {
                FileStep::Keep
            } else {
                FileStep::Conflict
            }
        },
    }
}

/// The conflict of a file the upgrade leaves alone.
pub fn conflict(path: &str, reason: &str, next_action: &str) -> (c: VaultUpgradeConflict)
    ensures
        c.path@ == path@,
        c.reason@ == reason@,
        c.next_action@ == next_action@,
{
    VaultUpgradeConflict { path: path.to_owned(), reason: reason.to_owned(), next_action: next_action.to_owned() }
}

/// The diff section of one write: the old path (or `/dev/null` for a new
/// file), the new path, and every old and new line.
pub open spec fn write_diff(path: Seq<char>, existed: bool, before: Seq<char>, content: Seq<char>) -> Seq<char> {
    "--- "@ + (if existed { path } else { "/dev/null"@ }) + "\n+++ "@ + path + "\n@@ complete file @@\n"@
        + prefixed_lines(lines_of(before), '-') + prefixed_lines(lines_of(content), '+')
}

/// The preview diff of the writes, given each file's current text (empty
/// when missing).
pub open spec fn upgrade_diff(writes: Seq<VaultUpgradeWrite>, befores: Seq<Seq<char>>) -> Seq<char>
    decreases writes.len(),
{
    if writes.len() == 0 || befores.len() != writes.len() {
        Seq::empty()
    } else {
        upgrade_diff(writes.drop_last(), befores.drop_last()) + write_diff(
            writes.last().path@,
            writes.last().before_sha256 is Some,
            befores.last(),
            writes.last().content@,
        )
    }
}

pub(crate) fn push_marked(out: &mut Vec<char>, text: &str, mark: char)
    ensures
        final(out)@ == old(out)@ + prefixed_lines(lines_of(text@), mark),
{
    let ls = lines(chars_of(text).as_slice());
    let ghost base = out@;
    let mut i: usize = 0;
    proof {
        assert(vviews(ls@).take(0) =~= Seq::<Seq<char>>::empty());
        assert(out@ =~= base + prefixed_lines(Seq::empty(), mark));
    }
    while i < ls.len()
        invariant
            i <= ls@.len(),
            vviews(ls@) == lines_of(text@),
            out@ == base + prefixed_lines(vviews(ls@).take(i as int), mark),
        decreases ls@.len() - i,
    {
        proof {
            assert(vviews(ls@).take(i + 1).drop_last() =~= vviews(ls@).take(i as int));
            assert(vviews(ls@).take(i + 1).last() == ls@[i as int]@);
        }
        out.push(mark);
        append_chars(out, ls[i].as_slice());
        out.push('\n');
        proof {
            assert(out@ =~= base + prefixed_lines(vviews(ls@).take(i + 1), mark));
        }
        i = i + 1;
    }
    proof {
        assert(vviews(ls@).take(ls@.len() as int) =~= vviews(ls@));
    }
}

/// The preview diff (see `upgrade_diff`).
pub fn render_diff(writes: &Vec<VaultUpgradeWrite>, befores: &Vec<String>) -> (d: String)
    requires
        befores@.len() == writes@.len(),
    ensures
        d@ == upgrade_diff(writes@, views(befores@)),
{
    let mut out: Vec<char> = Vec::new();
    let mut i: usize = 0;
    proof {
        assert(writes@.take(0) =~= Seq::<VaultUpgradeWrite>::empty());
    }
    while i < writes.len()
        invariant
            i <= writes@.len(),
            befores@.len() == writes@.len(),
            out@ == upgrade_diff(writes@.take(i as int), views(befores@).take(i as int)),
        decreases writes@.len() - i,
    {
        proof {
            assert(writes@.take(i + 1).drop_last() =~= writes@.take(i as int));
            assert(views(befores@).take(i + 1).drop_last() =~= views(befores@).take(i as int));
            assert(views(befores@).take(i + 1).last() == befores@[i as int]@);
        }
        let w = &writes[i];
        append_chars(&mut out, chars_of("--- ").as_slice());
        if w.before_sha256.is_some() {
            append_chars(&mut out, chars_of(w.path.as_str()).as_slice());
        } else {
            append_chars(&mut out, chars_of("/dev/null").as_slice());
        }
        append_chars(&mut out, chars_of("\n+++ ").as_slice());
        append_chars(&mut out, chars_of(w.path.as_str()).as_slice());
        append_chars(&mut out, chars_of("\n@@ complete file @@\n").as_slice());
        push_marked(&mut out, befores[i].as_str(), '-');
        push_marked(&mut out, w.content.as_str(), '+');
        i = i + 1;
    }
    proof {
        assert(writes@.take(writes@.len() as int) =~= writes@);
        assert(views(befores@).take(writes@.len() as int) =~= views(befores@));
    }
    string_of(out.as_slice())
}

} // verus!
