//! The product-owned rules region of `KB.md`, line-ending-insensitive text
//! comparison, and how a template inspection is summarized.
use vstd::prelude::*;
use crate::text::{append_chars, chars_of, find_from, occurs_at, occurs_at_exec, slice_vec, string_of};

verus! {

/// Opening marker of the rules region.
pub open spec fn rules_start() -> Seq<char> {
    "<!-- kb:rules:start -->"@
}

/// Closing marker of the rules region.
pub open spec fn rules_end() -> Seq<char> {
    "<!-- kb:rules:end -->"@
}

/// Why the rules region cannot be located.
#[derive(Debug, Clone, Copy, PartialEq, Eq, Structural)]
pub enum MarkerError {
    Missing,
    Duplicate,
    Reversed,
}

/// How many positions before `k` the pattern occurs at.
pub open spec fn occurrences_before(s: Seq<char>, p: Seq<char>, k: int) -> nat
    decreases k,
{
    if k <= 0 {
        0
    } else {
        occurrences_before(s, p, k - 1) + if occurs_at(s, p, k - 1) { 1nat } else { 0nat }
    }
}

/// How many times the pattern occurs (the markers never overlap themselves).
pub open spec fn occurrences(s: Seq<char>, p: Seq<char>) -> nat {
    occurrences_before(s, p, (s.len() + 1) as int)
}

/// The first position the pattern occurs at.
pub open spec fn first_at(s: Seq<char>, p: Seq<char>) -> int {
    choose|i: int| occurs_at(s, p, i) && forall|k: int| 0 <= k < i ==> !occurs_at(s, p, k)
}

/// The rules region: exactly one start and one end marker, the end not
/// before the start; its content lies from after the start marker to the
/// end marker (character positions).
pub open spec fn rules_region(s: Seq<char>) -> Result<(int, int), MarkerError> {
    let ns = occurrences(s, rules_start());
    let ne = occurrences(s, rules_end());
    if ns == 0 || ne == 0 {
        Err(MarkerError::Missing)
    } else if ns != 1 || ne != 1 {
        Err(MarkerError::Duplicate)
    } else {
        let cs = first_at(s, rules_start()) + rules_start().len();
        let ce = first_at(s, rules_end());
        if ce < cs {
            Err(MarkerError::Reversed)
        } else {
            Ok((cs, ce))
        }
    }
}

/// The located rules region: its content and where it lies.
#[derive(Debug, Clone)]
pub struct ManagedRegion {
    pub content: String,
    pub content_start: usize,
    pub content_end: usize,
}

fn count_and_first(s: &[char], p: &[char]) -> (r: (u64, Option<usize>))
    requires
        p@.len() > 0,
    ensures
        r.0 == occurrences(s@, p@) || (r.0 == 2 && occurrences(s@, p@) >= 2),
        r.0 <= 2,
        match r.1 {
            Some(i) => occurs_at(s@, p@, i as int) && forall|k: int| 0 <= k < i ==> !occurs_at(s@, p@, k),
            None => occurrences(s@, p@) == 0,
        },
{
    let mut count: u64 = 0;
    let mut first: Option<usize> = None;
    let mut i: usize = 0;
    let n = s.len();
    while i < n
        invariant
            n == s@.len(),
            i <= n,
            count <= 2,
            count == occurrences_before(s@, p@, i as int) || (count == 2 && occurrences_before(s@, p@, i as int) >= 2),
            match first {
                Some(f) => f < i && occurs_at(s@, p@, f as int) && forall|k: int| 0 <= k < f ==> !occurs_at(s@, p@, k),
                None => forall|k: int| 0 <= k < i ==> !occurs_at(s@, p@, k),
            },
            first is None ==> occurrences_before(s@, p@, i as int) == 0,
        decreases n - i,
    {
        if occurs_at_exec(s, p, i) {
            if first.is_none() {
                first = Some(i);
            }
            if count < 2 {
                count = count + 1;
            }
        }
        i = i + 1;
    }
    proof {
        assert(!occurs_at(s@, p@, n as int));
        assert(occurrences(s@, p@) == occurrences_before(s@, p@, n as int));
    }
    (count, first)
}

proof fn lemma_first_unique(s: Seq<char>, p: Seq<char>, i: int)
    requires
        occurs_at(s, p, i),
        forall|k: int| 0 <= k < i ==> !occurs_at(s, p, k),
    ensures
        first_at(s, p) == i,
{
    let f = first_at(s, p);
    assert(occurs_at(s, p, f) && forall|k: int| 0 <= k < f ==> !occurs_at(s, p, k));
    if f < i {
        assert(!occurs_at(s, p, f));
    }
    if i < f {
        assert(!occurs_at(s, p, i));
    }
}

/// Locate the rules region of a file's text (see `rules_region`).
pub fn parse_managed_rules(content: &str) -> (r: Result<ManagedRegion, MarkerError>)
    ensures
        match rules_region(content@) {
            Ok((cs, ce)) => r matches Ok(m) && m.content_start == cs && m.content_end == ce
                && m.content@ == content@.subrange(cs, ce) && cs <= ce <= content@.len(),
            Err(e) => r == Err::<ManagedRegion, MarkerError>(e),
        },
{
    let s = chars_of(content);
    let start = chars_of("<!-- kb:rules:start -->");
    let end = chars_of("<!-- kb:rules:end -->");
    proof {
        reveal_strlit("<!-- kb:rules:start -->");
        reveal_strlit("<!-- kb:rules:end -->");
    }
    let (ns, fs) = count_and_first(s.as_slice(), start.as_slice());
    let (ne, fe) = count_and_first(s.as_slice(), end.as_slice());
    if ns == 0 || ne == 0 {
        return Err(MarkerError::Missing);
    }
    if ns != 1 || ne != 1 {
        return Err(MarkerError::Duplicate);
    }
    let (i, j) = match (fs, fe) {
        (Some(i), Some(j)) => (i, j),
        _ => {
            return Err(MarkerError::Missing);
        },
    };
    proof {
        lemma_first_unique(s@, start@, i as int);
        lemma_first_unique(s@, end@, j as int);
    }
    let total = s.len();
    let sl = start.len();
    proof {
        assert(i + start@.len() <= s@.len());
        assert(j + end@.len() <= s@.len());
        assert(i + sl <= total);
    }
    let cs = i + sl;
    if j < cs {
        return Err(MarkerError::Reversed);
    }
    let body = slice_vec(s.as_slice(), cs, j);
    Ok(ManagedRegion { content: string_of(body.as_slice()), content_start: cs, content_end: j })
}

/// The content of the rules region, when it can be located.
pub fn managed_rules(content: &str) -> (r: Option<String>)
    ensures
        match rules_region(content@) {
            Ok((cs, ce)) => r matches Some(m) && m@ == content@.subrange(cs, ce),
            Err(_) => r is None,
        },
{
    match parse_managed_rules(content) {
        Ok(m) => Some(m.content),
        Err(_) => None,
    }
}

/// The text with each `\r\n` as `\n`.
pub open spec fn lf_text(s: Seq<char>) -> Seq<char>
    decreases s.len(),
{
    if s.len() == 0 {
        s
    } else if s.len() >= 2 && s[0] == '\r' && s[1] == '\n' {
        seq!['\n'] + lf_text(s.skip(2))
    } else {
        seq![s[0]] + lf_text(s.drop_first())
    }
}

fn lf_exec(s: &[char]) -> (out: Vec<char>)
    ensures
        out@ == lf_text(s@),
{
    let mut out: Vec<char> = Vec::new();
    let mut i: usize = 0;
    proof {
        assert(s@.skip(0) =~= s@);
    }
    while i < s.len()
        invariant
            i <= s@.len(),
            out@ + lf_text(s@.skip(i as int)) == lf_text(s@),
        decreases s@.len() - i,
    {
        if i + 1 < s.len() && s[i] == '\r' && s[i + 1] == '\n' {
            proof {
                assert(s@.skip(i as int).skip(2) =~= s@.skip(i + 2));
                assert(out@.push('\n') + lf_text(s@.skip(i + 2)) =~= out@ + (seq!['\n'] + lf_text(s@.skip(i + 2))));
            }
            out.push('\n');
            i = i + 2;
        } else {
            proof {
                assert(s@.skip(i as int).drop_first() =~= s@.skip(i + 1));
                assert(out@.push(s@[i as int]) + lf_text(s@.skip(i + 1)) =~= out@ + (seq![s@[i as int]] + lf_text(s@.skip(i + 1))));
            }
            out.push(s[i]);
            i = i + 1;
        }
    }
    proof {
        assert(s@.skip(s@.len() as int) =~= Seq::<char>::empty());
        assert(out@ + Seq::<char>::empty() =~= out@);
    }
    out
}

/// Two texts are equal once `\r\n` is read as `\n`.
pub fn text_equal(left: &str, right: &str) -> (b: bool)
    ensures
        b == (lf_text(left@) == lf_text(right@)),
{
    let l = lf_exec(chars_of(left).as_slice());
    let r = lf_exec(chars_of(right).as_slice());
    crate::text::equal_chars(l.as_slice(), r.as_slice())
}

/// The text with the rules region's content replaced.
pub open spec fn with_rules(original: Seq<char>, cs: int, ce: int, rules: Seq<char>) -> Seq<char> {
    original.take(cs) + rules + original.skip(ce)
}

/// Replace the content of a located rules region.
pub fn replace_rules(original: &str, rules: &str) -> (out: String)
    requires
        rules_region(original@) is Ok,
    ensures
        out@ == with_rules(original@, rules_region(original@)->Ok_0.0, rules_region(original@)->Ok_0.1, rules@),
{
    proof {
        let (a, b) = rules_region(original@)->Ok_0;
    }
    let m = parse_managed_rules(original);
    let (cs, ce) = match &m {
        Ok(r) => (r.content_start, r.content_end),
        Err(_) => (0, 0),
    };
    let s = chars_of(original);
    let mut out = slice_vec(s.as_slice(), 0, cs);
    append_chars(&mut out, chars_of(rules).as_slice());
    append_chars(&mut out, slice_vec(s.as_slice(), ce, s.len()).as_slice());
    proof {
        assert(out@ =~= with_rules(original@, cs as int, ce as int, rules@));
    }
    string_of(out.as_slice())
}

/// How a Vault's template relates to this build's template.
#[derive(Debug, Clone, Copy, PartialEq, Eq, Structural)]
pub enum TemplateCompatibility {
    Current,
    Outdated,
    Modified,
    MissingManifest,
    Unknown,
    Malformed,
}

/// The state of the template component in an update.
#[derive(Debug, Clone, Copy, PartialEq, Eq, Structural)]
pub enum ComponentState {
    Unchanged,
    Pending,
    Skipped,
}

/// The outcome of a template plan: any conflict skips the component (and
/// the plan keeps no writes); otherwise writes leave it pending, outdated
/// when a manifest was recorded; with nothing to write, it is current, or
/// without a manifest, missing one.
pub fn template_outcome(has_conflicts: bool, has_writes: bool, has_manifest: bool) -> (r: (ComponentState, TemplateCompatibility, bool))
    ensures
        r == (if has_conflicts {
            (ComponentState::Skipped, TemplateCompatibility::Modified, false)
        } else if has_writes {
            (ComponentState::Pending, if has_manifest { TemplateCompatibility::Outdated } else { TemplateCompatibility::MissingManifest }, true)
        } else if !has_manifest {
            (ComponentState::Unchanged, TemplateCompatibility::MissingManifest, true)
        } else {
            (ComponentState::Unchanged, TemplateCompatibility::Current, true)
        }),
{
    if has_conflicts {
        (ComponentState::Skipped, TemplateCompatibility::Modified, false)
    } else if has_writes {
        (ComponentState::Pending, if has_manifest { TemplateCompatibility::Outdated } else { TemplateCompatibility::MissingManifest }, true)
    } else if !has_manifest {
        (ComponentState::Unchanged, TemplateCompatibility::MissingManifest, true)
    } else {
        (ComponentState::Unchanged, TemplateCompatibility::Current, true)
    }
}

} // verus!
