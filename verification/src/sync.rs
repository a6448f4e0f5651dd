//! Synchronization checks: which shared paths count, conflict markers, Git
//! reports and the summary of findings.
use vstd::prelude::*;
use vstd::utf8::{decode_utf8, valid_utf8};
use crate::error::{ErrorCode, KbError};
use crate::text::{
    after_last, after_last_exec, append_chars, chars_of, contains_seq, decimal, decimal_chars,
    equal_chars, find_from, join, join_chars, lines, lines_of, split_whitespace, starts_with,
    starts_with_exec, string_of, trim, trimmed, utf8_text, vviews, words,
};

verus! {

/// How serious a finding is; errors sort first.
#[derive(Debug, Clone, Copy, PartialEq, Eq, Structural)]
pub enum SyncFindingLevel {
    Error,
    Warning,
    Info,
}

/// One synchronization finding.
#[derive(Debug, Clone)]
pub struct SyncFinding {
    pub code: String,
    pub level: SyncFindingLevel,
    pub blocks_writes: bool,
    pub path: Option<String>,
    pub message: String,
    pub next_action: String,
}

/// A finding with its text as characters.
pub struct FindingView {
    pub code: Seq<char>,
    pub level: SyncFindingLevel,
    pub blocks_writes: bool,
    pub path: Option<Seq<char>>,
    pub message: Seq<char>,
    pub next_action: Seq<char>,
}

pub open spec fn finding_view(f: SyncFinding) -> FindingView {
    FindingView {
        code: f.code@,
        level: f.level,
        blocks_writes: f.blocks_writes,
        path: match f.path {
            Some(p) => Some(p@),
            None => None,
        },
        message: f.message@,
        next_action: f.next_action@,
    }
}

impl SyncFinding {
    /// A copy of the finding with the same fields.
    pub fn duplicate(&self) -> (f: SyncFinding)
        ensures
            finding_view(f) == finding_view(*self),
    {
        SyncFinding {
            code: self.code.clone(),
            level: self.level,
            blocks_writes: self.blocks_writes,
            path: match &self.path {
                Some(p) => Some(p.clone()),
                None => None,
            },
            message: self.message.clone(),
            next_action: self.next_action.clone(),
        }
    }
}

pub open spec fn finding_views(v: Seq<SyncFinding>) -> Seq<FindingView> {
    v.map_values(|f: SyncFinding| finding_view(f))
}

/// A finding built from its parts.
pub fn finding(
    code: &str,
    level: SyncFindingLevel,
    blocks_writes: bool,
    path: Option<Vec<char>>,
    message: Vec<char>,
    next_action: Vec<char>,
) -> (f: SyncFinding)
    ensures
        finding_view(f) == (FindingView {
            code: code@,
            level,
            blocks_writes,
            path: match path {
                Some(p) => Some(p@),
                None => None,
            },
            message: message@,
            next_action: next_action@,
        }),
{
    SyncFinding {
        code: code.to_owned(),
        level,
        blocks_writes,
        path: match path {
            Some(p) => Some(string_of(p.as_slice())),
            None => None,
        },
        message: string_of(message.as_slice()),
        next_action: string_of(next_action.as_slice()),
    }
}

/// `p` is `dir` or lies under it.
pub open spec fn is_or_under(p: Seq<char>, dir: Seq<char>, dir_slash: Seq<char>) -> bool {
    p == dir || starts_with(p, dir_slash)
}

/// Paths that stay on one machine and are not compared across devices.
pub open spec fn excluded_shared(p: Seq<char>) -> bool {
    let base = after_last(p, '/');
    ||| is_or_under(p, ".git"@, ".git/"@)
    ||| p == ".kb/config.local.yml"@
    ||| is_or_under(p, ".kb/cache"@, ".kb/cache/"@)
    ||| is_or_under(p, ".kb/runtime"@, ".kb/runtime/"@)
    ||| p == ".obsidian/workspace.json"@
    ||| p == ".obsidian/workspace-mobile.json"@
    ||| p == ".obsidian/workspaces.json"@
    ||| is_or_under(p, ".trash"@, ".trash/"@)
    ||| base == ".DS_Store"@
    ||| base == "Thumbs.db"@
    ||| base == "Desktop.ini"@
}

fn is_lit(s: &[char], lit: &str) -> (b: bool)
    ensures
        b == (s@ == lit@),
{
    let l = chars_of(lit);
    equal_chars(s, l.as_slice())
}

fn starts_lit(s: &[char], lit: &str) -> (b: bool)
    ensures
        b == starts_with(s@, lit@),
{
    let l = chars_of(lit);
    starts_with_exec(s, l.as_slice())
}

fn under_lit(s: &[char], dir: &str, dir_slash: &str) -> (b: bool)
    ensures
        b == is_or_under(s@, dir@, dir_slash@),
{
    is_lit(s, dir) || starts_lit(s, dir_slash)
}

/// Whether a Vault-relative path (with `/` separators) is machine-local.
pub fn excluded_shared_path(path: &str) -> (b: bool)
    ensures
        b == excluded_shared(path@),
{
    let p = chars_of(path);
    let s = p.as_slice();
    let base = after_last_exec(s, '/');
    let b = base.as_slice();
    under_lit(s, ".git", ".git/") || is_lit(s, ".kb/config.local.yml")
        || under_lit(s, ".kb/cache", ".kb/cache/") || under_lit(s, ".kb/runtime", ".kb/runtime/")
        || is_lit(s, ".obsidian/workspace.json") || is_lit(s, ".obsidian/workspace-mobile.json")
        || is_lit(s, ".obsidian/workspaces.json") || under_lit(s, ".trash", ".trash/")
        || is_lit(b, ".DS_Store") || is_lit(b, "Thumbs.db") || is_lit(b, "Desktop.ini")
}

/// A line left by an unresolved merge.
pub open spec fn is_marker(l: Seq<char>) -> bool {
    starts_with(l, "<<<<<<< "@) || l == "======="@ || starts_with(l, ">>>>>>> "@)
}

fn is_conflict_marker(line: &[char]) -> (b: bool)
    ensures
        b == is_marker(line@),
{
    starts_lit(line, "<<<<<<< ") || is_lit(line, "=======") || starts_lit(line, ">>>>>>> ")
}

/// Some line of `text` is a conflict marker.
pub open spec fn has_marker(text: Seq<char>) -> bool {
    exists|i: int| 0 <= i < lines_of(text).len() && is_marker(#[trigger] lines_of(text)[i])
}

/// Files whose conflict blocks every shared write.
pub open spec fn managed_file(rel: Seq<char>, text: Seq<char>) -> bool {
    ||| rel == "KB.md"@
    ||| rel == "admission.yml"@
    ||| rel == ".kb/config.yml"@
    ||| rel == "Wiki/index.md"@
    ||| rel == "Wiki/log.md"@
    ||| contains_seq(text, "kb:managed:start"@)
}

/// The finding for one file's text: none without a conflict marker; an error
/// that blocks writes for a managed file, a warning otherwise.
pub open spec fn conflict_view(rel: Seq<char>, text: Seq<char>) -> Option<FindingView> {
    if !has_marker(text) {
        None
    } else {
        let managed = managed_file(rel, text);
        Some(
            FindingView {
                code: "sync_conflict_marker"@,
                level: if managed { SyncFindingLevel::Error } else { SyncFindingLevel::Warning },
                blocks_writes: managed,
                path: Some(rel),
                message: "The file contains unresolved conflict markers."@,
                next_action: "Resolve the competing versions, then run kb sync check again."@,
            },
        )
    }
}

/// The conflict-marker finding for one file, given its Vault-relative path and text.
pub fn conflict_finding(relative: &str, text: &str) -> (r: Option<SyncFinding>)
    ensures
        match r {
            Some(f) => conflict_view(relative@, text@) == Some(finding_view(f)),
            None => conflict_view(relative@, text@) is None,
        },
{
    let t = chars_of(text);
    let ls = lines(t.as_slice());
    let mut found = false;
    let mut i: usize = 0;
    while i < ls.len()
        invariant
            i <= ls@.len(),
            vviews(ls@) == lines_of(text@),
            found == exists|k: int| 0 <= k < i && is_marker(#[trigger] lines_of(text@)[k]),
        decreases ls@.len() - i,
    {
        if is_conflict_marker(ls[i].as_slice()) {
            found = true;
        }
        proof {
            assert(vviews(ls@)[i as int] == ls@[i as int]@);
        }
        i = i + 1;
    }
    if !found {
        return None;
    }
    let r = chars_of(relative);
    let rs = r.as_slice();
    let tag = chars_of("kb:managed:start");
    let tagged = find_from(t.as_slice(), tag.as_slice(), 0).is_some();
    let managed = is_lit(rs, "KB.md") || is_lit(rs, "admission.yml") || is_lit(rs, ".kb/config.yml")
        || is_lit(rs, "Wiki/index.md") || is_lit(rs, "Wiki/log.md") || tagged;
    proof {
        if !tagged {
            assert(!contains_seq(text@, "kb:managed:start"@));
        }
    }
    Some(finding(
        "sync_conflict_marker",
        if managed { SyncFindingLevel::Error } else { SyncFindingLevel::Warning },
        managed,
        Some(r),
        chars_of("The file contains unresolved conflict markers."),
        chars_of("Resolve the competing versions, then run kb sync check again."),
    ))
}

/// The text of a finished NUL-separated record, kept when nonempty and UTF-8.
pub open spec fn emit(out: Seq<Seq<char>>, cur: Seq<u8>) -> Seq<Seq<char>> {
    if cur.len() > 0 && valid_utf8(cur) {
        out.push(decode_utf8(cur))
    } else {
        out
    }
}

/// Records finished so far, and the record being read.
pub open spec fn nul_state(b: Seq<u8>) -> (Seq<Seq<char>>, Seq<u8>)
    decreases b.len(),
{
    if b.len() == 0 {
        (Seq::empty(), Seq::empty())
    } else {
        let (out, cur) = nul_state(b.drop_last());
        if b.last() == 0 {
            (emit(out, cur), Seq::empty())
        } else {
            (out, cur.push(b.last()))
        }
    }
}

/// The nonempty UTF-8 records of NUL-separated output, in order.
pub open spec fn nul_split(b: Seq<u8>) -> Seq<Seq<char>> {
    let (out, cur) = nul_state(b);
    emit(out, cur)
}

fn emit_exec(out: &mut Vec<Vec<char>>, cur: &Vec<u8>)
    ensures
        vviews(final(out)@) == emit(vviews(old(out)@), cur@),
{
    if cur.len() > 0 {
        match utf8_text(cur.as_slice()) {
            Ok(t) => {
                let c = chars_of(t.as_str());
                let ghost before = out@;
                out.push(c);
                proof {
                    assert(vviews(out@) =~= vviews(before).push(c@));
                }
            },
            Err(_) => {},
        }
    }
}

/// The records of NUL-separated Git output.
pub fn nul_records(bytes: &[u8]) -> (out: Vec<Vec<char>>)
    ensures
        vviews(out@) == nul_split(bytes@),
{
    let mut out: Vec<Vec<char>> = Vec::new();
    let mut cur: Vec<u8> = Vec::new();
    let mut i: usize = 0;
    proof {
        assert(bytes@.take(0) =~= Seq::<u8>::empty());
        assert(vviews(out@) =~= Seq::<Seq<char>>::empty());
    }
    while i < bytes.len()
        invariant
            i <= bytes@.len(),
            (vviews(out@), cur@) == nul_state(bytes@.take(i as int)),
        decreases bytes@.len() - i,
    {
        proof {
            assert(bytes@.take(i + 1).drop_last() =~= bytes@.take(i as int));
            assert(bytes@.take(i + 1).last() == bytes@[i as int]);
        }
        if bytes[i] == 0 {
            emit_exec(&mut out, &cur);
            cur = Vec::new();
            proof {
                assert(cur@ =~= Seq::<u8>::empty());
            }
        } else {
            cur.push(bytes[i]);
        }
        i = i + 1;
    }
    proof {
        assert(bytes@.take(bytes@.len() as int) =~= bytes@);
    }
    emit_exec(&mut out, &cur);
    out
}

pub open spec fn unmerged_view(record: Seq<char>) -> FindingView {
    FindingView {
        code: "git_unmerged"@,
        level: SyncFindingLevel::Error,
        blocks_writes: true,
        path: Some(after_last(record, '\t')),
        message: "Git reports an unresolved merge entry."@,
        next_action: "Resolve the Git conflict, then run kb sync check again."@,
    }
}

/// One error per record of `git ls-files -z --unmerged`, naming the path after the tab.
pub fn unmerged_findings(stdout: &[u8]) -> (out: Vec<SyncFinding>)
    ensures
        finding_views(out@) == nul_split(stdout@).map_values(|r: Seq<char>| unmerged_view(r)),
{
    let records = nul_records(stdout);
    let mut out: Vec<SyncFinding> = Vec::new();
    let mut i: usize = 0;
    while i < records.len()
        invariant
            i <= records@.len(),
            vviews(records@) == nul_split(stdout@),
            finding_views(out@) == vviews(records@).take(i as int).map_values(|r: Seq<char>| unmerged_view(r)),
        decreases records@.len() - i,
    {
        let path = after_last_exec(records[i].as_slice(), '\t');
        let f = finding(
            "git_unmerged",
            SyncFindingLevel::Error,
            true,
            Some(path),
            chars_of("Git reports an unresolved merge entry."),
            chars_of("Resolve the Git conflict, then run kb sync check again."),
        );
        let ghost before = out@;
        out.push(f);
        proof {
            assert(vviews(records@)[i as int] == records@[i as int]@);
            assert(vviews(records@).take(i + 1) =~= vviews(records@).take(i as int).push(records@[i as int]@));
            assert(finding_views(out@) =~= finding_views(before).push(finding_view(f)));
            assert(vviews(records@).take(i + 1).map_values(|r: Seq<char>| unmerged_view(r))
                =~= vviews(records@).take(i as int).map_values(|r: Seq<char>| unmerged_view(r)).push(unmerged_view(records@[i as int]@)));
        }
        i = i + 1;
    }
    proof {
        assert(vviews(records@).take(records@.len() as int) =~= vviews(records@));
    }
    out
}

pub open spec fn tracked_view(path: Seq<char>) -> FindingView {
    FindingView {
        code: "local_state_tracked"@,
        level: SyncFindingLevel::Warning,
        blocks_writes: starts_with(path, ".kb/runtime/"@),
        path: Some(path),
        message: "A machine-local file is tracked by Git."@,
        next_action: "Remove it from Git tracking and add the matching portable ignore rule."@,
    }
}

/// One warning per machine-local path that Git tracks; tracked runtime files
/// block writes.
pub fn tracked_local_findings(stdout: &[u8]) -> (out: Vec<SyncFinding>)
    ensures
        finding_views(out@) == nul_split(stdout@).map_values(|r: Seq<char>| tracked_view(r)),
{
    let records = nul_records(stdout);
    let mut out: Vec<SyncFinding> = Vec::new();
    let mut i: usize = 0;
    while i < records.len()
        invariant
            i <= records@.len(),
            vviews(records@) == nul_split(stdout@),
            finding_views(out@) == vviews(records@).take(i as int).map_values(|r: Seq<char>| tracked_view(r)),
        decreases records@.len() - i,
    {
        let path = records[i].clone();
        let runtime = starts_lit(path.as_slice(), ".kb/runtime/");
        let f = finding(
            "local_state_tracked",
            SyncFindingLevel::Warning,
            runtime,
            Some(path),
            chars_of("A machine-local file is tracked by Git."),
            chars_of("Remove it from Git tracking and add the matching portable ignore rule."),
        );
        let ghost before = out@;
        out.push(f);
        proof {
            assert(vviews(records@)[i as int] == records@[i as int]@);
            assert(vviews(records@).take(i + 1) =~= vviews(records@).take(i as int).push(records@[i as int]@));
            assert(finding_views(out@) =~= finding_views(before).push(finding_view(f)));
            assert(vviews(records@).take(i + 1).map_values(|r: Seq<char>| tracked_view(r))
                =~= vviews(records@).take(i as int).map_values(|r: Seq<char>| tracked_view(r)).push(tracked_view(records@[i as int]@)));
        }
        i = i + 1;
    }
    proof {
        assert(vviews(records@).take(records@.len() as int) =~= vviews(records@));
    }
    out
}

/// Trimmed lines that are neither blank nor comments, in order.
pub open spec fn keep_rules(ls: Seq<Seq<char>>) -> Seq<Seq<char>>
    decreases ls.len(),
{
    if ls.len() == 0 {
        Seq::empty()
    } else {
        let rest = keep_rules(ls.drop_last());
        let t = trim(ls.last());
        if t.len() > 0 && t[0] != '#' {
            rest.push(t)
        } else {
            rest
        }
    }
}

/// The rule lines of an ignore or attributes file.
pub open spec fn rule_lines(text: Seq<char>) -> Seq<Seq<char>> {
    keep_rules(lines_of(text))
}

fn rule_lines_exec(text: &str) -> (out: Vec<Vec<char>>)
    ensures
        vviews(out@) == rule_lines(text@),
{
    let t = chars_of(text);
    let ls = lines(t.as_slice());
    let mut out: Vec<Vec<char>> = Vec::new();
    let mut i: usize = 0;
    proof {
        assert(vviews(ls@).take(0) =~= Seq::<Seq<char>>::empty());
        assert(vviews(out@) =~= Seq::<Seq<char>>::empty());
    }
    while i < ls.len()
        invariant
            i <= ls@.len(),
            vviews(ls@) == lines_of(text@),
            vviews(out@) == keep_rules(vviews(ls@).take(i as int)),
        decreases ls@.len() - i,
    {
        proof {
            assert(vviews(ls@).take(i + 1).drop_last() =~= vviews(ls@).take(i as int));
            assert(vviews(ls@).take(i + 1).last() == ls@[i as int]@);
        }
        let t = trimmed(ls[i].as_slice());
        if t.len() > 0 && t[0] != '#' {
            let ghost before = out@;
            out.push(t);
            proof {
                assert(vviews(out@) =~= vviews(before).push(t@));
            }
        }
        i = i + 1;
    }
    proof {
        assert(vviews(ls@).take(ls@.len() as int) =~= vviews(ls@));
    }
    out
}

/// The expected lines that `actual` lacks, in their order.
pub open spec fn missing(expected: Seq<Seq<char>>, actual: Seq<Seq<char>>) -> Seq<Seq<char>>
    decreases expected.len(),
{
    if expected.len() == 0 {
        Seq::empty()
    } else {
        let rest = missing(expected.drop_last(), actual);
        if actual.contains(expected.last()) {
            rest
        } else {
            rest.push(expected.last())
        }
    }
}

fn contains_line(lines: &Vec<Vec<char>>, line: &Vec<char>) -> (b: bool)
    ensures
        b == vviews(lines@).contains(line@),
{
    let mut i: usize = 0;
    while i < lines.len()
        invariant
            i <= lines@.len(),
            forall|k: int| 0 <= k < i ==> lines@[k]@ != line@,
        decreases lines@.len() - i,
    {
        if equal_chars(lines[i].as_slice(), line.as_slice()) {
            proof {
                assert(vviews(lines@)[i as int] == line@);
            }
            return true;
        }
        i = i + 1;
    }
    proof {
        if vviews(lines@).contains(line@) {
            let k = choose|k: int| 0 <= k < vviews(lines@).len() && vviews(lines@)[k] == line@;
            assert(lines@[k]@ == line@);
        }
    }
    false
}

fn missing_exec(expected: &Vec<Vec<char>>, actual: &Vec<Vec<char>>) -> (out: Vec<Vec<char>>)
    ensures
        vviews(out@) == missing(vviews(expected@), vviews(actual@)),
{
    let mut out: Vec<Vec<char>> = Vec::new();
    let mut i: usize = 0;
    proof {
        assert(vviews(expected@).take(0) =~= Seq::<Seq<char>>::empty());
        assert(vviews(out@) =~= Seq::<Seq<char>>::empty());
    }
    while i < expected.len()
        invariant
            i <= expected@.len(),
            vviews(out@) == missing(vviews(expected@).take(i as int), vviews(actual@)),
        decreases expected@.len() - i,
    {
        proof {
            assert(vviews(expected@).take(i + 1).drop_last() =~= vviews(expected@).take(i as int));
            assert(vviews(expected@).take(i + 1).last() == expected@[i as int]@);
        }
        if !contains_line(actual, &expected[i]) {
            let e = expected[i].clone();
            let ghost before = out@;
            out.push(e);
            proof {
                assert(vviews(out@) =~= vviews(before).push(e@));
            }
        }
        i = i + 1;
    }
    proof {
        assert(vviews(expected@).take(expected@.len() as int) =~= vviews(expected@));
    }
    out
}

/// The ignore rules every shared Vault repository should hold.
pub open spec fn gitignore_lines() -> Seq<Seq<char>> {
    seq![
        "/.kb/config.local.yml"@,
        "/.kb/cache/"@,
        "/.kb/runtime/"@,
        "/.obsidian/workspace.json"@,
        "/.obsidian/workspace-mobile.json"@,
        "/.obsidian/workspaces.json"@,
        "/.trash/"@,
        ".DS_Store"@,
        "Thumbs.db"@,
        "Desktop.ini"@,
    ]
}

/// The attribute rules that pin text files to LF.
pub open spec fn text_attribute_lines() -> Seq<Seq<char>> {
    seq!["*.md text eol=lf"@, "*.yml text eol=lf"@, "*.yaml text eol=lf"@, "*.json text eol=lf"@]
}

fn lit_lines(lits: &[&str]) -> (out: Vec<Vec<char>>)
    ensures
        out@.len() == lits@.len(),
        forall|k: int| 0 <= k < lits@.len() ==> #[trigger] out@[k]@ == lits@[k]@,
{
    let mut out: Vec<Vec<char>> = Vec::new();
    let mut i: usize = 0;
    while i < lits.len()
        invariant
            i <= lits@.len(),
            out@.len() == i,
            forall|k: int| 0 <= k < i ==> #[trigger] out@[k]@ == lits@[k]@,
        decreases lits@.len() - i,
    {
        out.push(chars_of(lits[i]));
        i = i + 1;
    }
    out
}

pub open spec fn review_lines(lines: Seq<Seq<char>>) -> Seq<char> {
    "Review and add these lines:\n"@ + join(lines, "\n"@)
}

/// Findings on the repository's ignore and attribute rules, from the texts of
/// `.gitignore` and `.gitattributes` (empty when a file is absent).
pub open spec fn rule_views(ignore: Seq<char>, attributes: Seq<char>) -> Seq<FindingView> {
    let mi = missing(gitignore_lines(), rule_lines(ignore));
    let mt = missing(text_attribute_lines(), rule_lines(attributes));
    let s1: Seq<FindingView> = if mi.len() > 0 {
        seq![FindingView {
            code: "gitignore_missing_portable_rule"@,
            level: SyncFindingLevel::Warning,
            blocks_writes: false,
            path: Some(".gitignore"@),
            message: "The repository does not contain every recommended local-state exclusion."@,
            next_action: review_lines(mi),
        }]
    } else {
        Seq::empty()
    };
    let s2: Seq<FindingView> = if mt.len() > 0 {
        s1.push(FindingView {
            code: "gitattributes_text_unstable"@,
            level: SyncFindingLevel::Warning,
            blocks_writes: false,
            path: Some(".gitattributes"@),
            message: "Portable text line endings are not fully pinned to LF."@,
            next_action: review_lines(mt),
        })
    } else {
        s1
    };
    if rule_lines(attributes).contains("/Wiki/external-sources/.objects/** -text"@) {
        s2
    } else {
        s2.push(FindingView {
            code: "gitattributes_source_object_rewrite"@,
            level: SyncFindingLevel::Warning,
            blocks_writes: false,
            path: Some(".gitattributes"@),
            message: "Immutable source objects are not explicitly protected from Git text rewriting."@,
            next_action: "Review and add this line:\n"@ + "/Wiki/external-sources/.objects/** -text"@,
        })
    }
}

fn review_exec(lines: &Vec<Vec<char>>) -> (out: Vec<char>)
    ensures
        out@ == review_lines(vviews(lines@)),
{
    let mut out = chars_of("Review and add these lines:\n");
    let sep = chars_of("\n");
    let joined = join_chars(lines, sep.as_slice());
    append_chars(&mut out, joined.as_slice());
    out
}

/// The ignore and attribute findings of `rule_views`.
pub fn rule_findings(gitignore: &str, gitattributes: &str) -> (out: Vec<SyncFinding>)
    ensures
        finding_views(out@) == rule_views(gitignore@, gitattributes@),
{
    let ignore = rule_lines_exec(gitignore);
    let attributes = rule_lines_exec(gitattributes);
    let expected_ignore = lit_lines(&[
        "/.kb/config.local.yml",
        "/.kb/cache/",
        "/.kb/runtime/",
        "/.obsidian/workspace.json",
        "/.obsidian/workspace-mobile.json",
        "/.obsidian/workspaces.json",
        "/.trash/",
        ".DS_Store",
        "Thumbs.db",
        "Desktop.ini",
    ]);
    let expected_text = lit_lines(&["*.md text eol=lf", "*.yml text eol=lf", "*.yaml text eol=lf", "*.json text eol=lf"]);
    proof {
        assert(vviews(expected_ignore@) =~= gitignore_lines());
        assert(vviews(expected_text@) =~= text_attribute_lines());
    }
    let mi = missing_exec(&expected_ignore, &ignore);
    let mt = missing_exec(&expected_text, &attributes);
    let mut out: Vec<SyncFinding> = Vec::new();
    if mi.len() > 0 {
        out.push(finding(
            "gitignore_missing_portable_rule",
            SyncFindingLevel::Warning,
            false,
            Some(chars_of(".gitignore")),
            chars_of("The repository does not contain every recommended local-state exclusion."),
            review_exec(&mi),
        ));
    }
    if mt.len() > 0 {
        out.push(finding(
            "gitattributes_text_unstable",
            SyncFindingLevel::Warning,
            false,
            Some(chars_of(".gitattributes")),
            chars_of("Portable text line endings are not fully pinned to LF."),
            review_exec(&mt),
        ));
    }
    let objects = chars_of("/Wiki/external-sources/.objects/** -text");
    if !contains_line(&attributes, &objects) {
        let mut next = chars_of("Review and add this line:\n");
        append_chars(&mut next, objects.as_slice());
        out.push(finding(
            "gitattributes_source_object_rewrite",
            SyncFindingLevel::Warning,
            false,
            Some(chars_of(".gitattributes")),
            chars_of("Immutable source objects are not explicitly protected from Git text rewriting."),
            next,
        ));
    }
    proof {
        assert(finding_views(out@) =~= rule_views(gitignore@, gitattributes@));
    }
    out
}

pub open spec fn is_digit(c: char) -> bool {
    '0' <= c <= '9'
}

pub open spec fn digit_value(c: char) -> nat {
    (c as int - '0' as int) as nat
}

/// The value of a string of decimal digits.
pub open spec fn digits_value(d: Seq<char>) -> nat
    decreases d.len(),
{
    if d.len() == 0 {
        0
    } else {
        digits_value(d.drop_last()) * 10 + digit_value(d.last())
    }
}

pub open spec fn all_digits(d: Seq<char>) -> bool {
    forall|i: int| 0 <= i < d.len() ==> is_digit(#[trigger] d[i])
}

/// `u64::from_str`: an optional `+`, then one or more decimal digits whose value fits.
pub open spec fn parsed_u64(s: Seq<char>) -> Option<u64> {
    let d = if s.len() > 0 && s[0] == '+' { s.drop_first() } else { s };
    if d.len() > 0 && all_digits(d) && digits_value(d) <= u64::MAX {
        Some(digits_value(d) as u64)
    } else {
        None
    }
}

proof fn lemma_digits_grow(d: Seq<char>, j: int)
    requires
        all_digits(d),
        0 <= j <= d.len(),
    ensures
        digits_value(d.take(j)) <= digits_value(d),
    decreases d.len(),
{
    if j < d.len() {
        assert(all_digits(d.drop_last()));
        lemma_digits_grow(d.drop_last(), j);
        assert(d.drop_last().take(j) =~= d.take(j));
    } else {
        assert(d.take(j) =~= d);
    }
}

/// The number that `s` spells, as `u64::from_str` reads it.
pub fn parse_u64(s: &[char]) -> (r: Option<u64>)
    ensures
        r == parsed_u64(s@),
{
    let start: usize = if s.len() > 0 && s[0] == '+' { 1 } else { 0 };
    let ghost d = if s@.len() > 0 && s@[0] == '+' { s@.drop_first() } else { s@ };
    proof {
        assert(d =~= s@.skip(start as int));
    }
    if start >= s.len() {
        return None;
    }
    let mut v: u64 = 0;
    let mut i: usize = start;
    proof {
        assert(d.take(0) =~= Seq::<char>::empty());
    }
    while i < s.len()
        invariant
            start <= i <= s@.len(),
            d == s@.skip(start as int),
            d == (if s@.len() > 0 && s@[0] == '+' { s@.drop_first() } else { s@ }),
            v == digits_value(d.take(i - start)),
            forall|k: int| 0 <= k < i - start ==> is_digit(#[trigger] d[k]),
        decreases s@.len() - i,
    {
        let c = s[i];
        proof {
            assert(d[i - start] == c);
        }
        if !(c >= '0' && c <= '9') {
            proof {
                assert(!is_digit(d[i - start]));
            }
            return None;
        }
        let dv = (c as u32 - '0' as u32) as u64;
        proof {
            assert(d.take(i - start + 1).drop_last() =~= d.take(i - start));
            assert(d.take(i - start + 1).last() == c);
        }
        let ghost next = digits_value(d.take(i - start + 1));
        proof {
            assert(dv == digit_value(c));
            assert(next == v * 10 + dv);
        }
        match v.checked_mul(10) {
            None => {
                proof {
                    assert(next > u64::MAX);
                    if all_digits(d) {
                        lemma_digits_grow(d, i - start + 1);
                    }
                }
                return None;
            },
            Some(m) => match m.checked_add(dv) {
                None => {
                    proof {
                        assert(next > u64::MAX);
                        if all_digits(d) {
                            lemma_digits_grow(d, i - start + 1);
                        }
                    }
                    return None;
                },
                Some(w) => {
                    v = w;
                },
            },
        }
        i = i + 1;
    }
    proof {
        assert(d.take(i - start) =~= d);
    }
    Some(v)
}

/// `a` followed by `b`.
fn cat(a: Vec<char>, b: &[char]) -> (out: Vec<char>)
    ensures
        out@ == a@ + b@,
{
    let mut out = a;
    append_chars(&mut out, b);
    out
}

pub open spec fn unavailable_view(up: Seq<char>) -> FindingView {
    FindingView {
        code: "git_upstream_state_unavailable"@,
        level: SyncFindingLevel::Error,
        blocks_writes: true,
        path: None,
        message: "Git could not compare the current branch with "@ + up + "."@,
        next_action: "Repair the local Git upstream state, then run kb sync check again."@,
    }
}

pub open spec fn behind_view(up: Seq<char>, behind: nat) -> FindingView {
    FindingView {
        code: "git_branch_behind"@,
        level: SyncFindingLevel::Error,
        blocks_writes: true,
        path: None,
        message: "The current branch is "@ + decimal(behind) + " commit(s) behind "@ + up + "."@,
        next_action: "Update the working tree from its upstream, then run kb sync check again."@,
    }
}

pub open spec fn diverged_view(up: Seq<char>, ahead: nat, behind: nat) -> FindingView {
    FindingView {
        code: "git_branch_diverged"@,
        level: SyncFindingLevel::Error,
        blocks_writes: true,
        path: None,
        message: "The current branch and "@ + up + " have diverged ("@ + decimal(ahead) + " local, "@
            + decimal(behind) + " upstream commit(s))."@,
        next_action: "Resolve the Git divergence without force-pushing, then run kb sync check and kb lint again."@,
    }
}

/// Findings on the current branch against its upstream, given the upstream's
/// name as Git printed it and the output of `rev-list --left-right --count`
/// (`None` when that command did not succeed): nothing when the branch is not
/// behind, an error when it is behind or has diverged, and an error when the
/// counts cannot be read.
pub open spec fn upstream_views(upstream: Seq<char>, counts: Option<Seq<char>>) -> Seq<FindingView> {
    let up = trim(upstream);
    match counts {
        None => seq![unavailable_view(up)],
        Some(c) => {
            let w = words(c);
            if w.len() == 2 && parsed_u64(w[0]) is Some && parsed_u64(w[1]) is Some {
                let ahead = parsed_u64(w[0])->0;
                let behind = parsed_u64(w[1])->0;
                if behind == 0 {
                    Seq::empty()
                } else if ahead == 0 {
                    seq![behind_view(up, behind as nat)]
                } else {
                    seq![diverged_view(up, ahead as nat, behind as nat)]
                }
            } else {
                seq![unavailable_view(up)]
            }
        },
    }
}

/// When Git's counts read as two numbers, the branch's findings depend on how
/// far it is behind: not behind (whatever it is ahead) gives no finding;
/// behind gives exactly one finding, which blocks writes, saying the branch
/// is behind when it is not also ahead and that it diverged when it is.
pub proof fn upstream_findings_follow_behind_count(upstream: Seq<char>, counts: Seq<char>)
    requires
        words(counts).len() == 2,
        parsed_u64(words(counts)[0]) is Some,
        parsed_u64(words(counts)[1]) is Some,
    ensures
        parsed_u64(words(counts)[1]) == Some(0u64) ==> upstream_views(upstream, Some(counts)).len() == 0,
        parsed_u64(words(counts)[1]) != Some(0u64) ==> {
            &&& upstream_views(upstream, Some(counts)).len() == 1
            &&& upstream_views(upstream, Some(counts))[0].blocks_writes
            &&& (upstream_views(upstream, Some(counts))[0].code == "git_branch_behind"@ <==> parsed_u64(words(counts)[0]) == Some(0u64))
            &&& (upstream_views(upstream, Some(counts))[0].code == "git_branch_diverged"@ <==> parsed_u64(words(counts)[0]) != Some(0u64))
        },
{
    reveal_strlit("git_branch_behind");
    reveal_strlit("git_branch_diverged");
    assert("git_branch_behind"@.len() != "git_branch_diverged"@.len());
    let w = words(counts);
    let ahead = parsed_u64(w[0])->0;
    let behind = parsed_u64(w[1])->0;
    if behind != 0 {
        if ahead == 0 {
            assert(upstream_views(upstream, Some(counts)) == seq![behind_view(trim(upstream), behind as nat)]);
        } else {
            assert(upstream_views(upstream, Some(counts)) == seq![diverged_view(trim(upstream), ahead as nat, behind as nat)]);
        }
    }
}

/// When Git's counts are missing or do not read as two numbers, there is
/// exactly one finding: that the upstream state is unavailable, which blocks
/// writes.
pub proof fn unreadable_counts_are_unavailable(upstream: Seq<char>, counts: Option<Seq<char>>)
    requires
        counts matches Some(c) ==> !(words(c).len() == 2 && parsed_u64(words(c)[0]) is Some && parsed_u64(words(c)[1]) is Some),
    ensures
        upstream_views(upstream, counts).len() == 1,
        upstream_views(upstream, counts)[0].code == "git_upstream_state_unavailable"@,
        upstream_views(upstream, counts)[0].blocks_writes,
{
}

fn unavailable_finding(up: &Vec<char>) -> (f: SyncFinding)
    ensures
        finding_view(f) == unavailable_view(up@),
{
    let m = cat(cat(chars_of("Git could not compare the current branch with "), up.as_slice()), chars_of(".").as_slice());
    finding(
        "git_upstream_state_unavailable",
        SyncFindingLevel::Error,
        true,
        None,
        m,
        chars_of("Repair the local Git upstream state, then run kb sync check again."),
    )
}

/// The findings of `upstream_views`.
pub fn upstream_findings(upstream: &str, counts: Option<&str>) -> (out: Vec<SyncFinding>)
    ensures
        finding_views(out@) == upstream_views(upstream@, match counts {
            Some(c) => Some(c@),
            None => None,
        }),
{
    let uc = chars_of(upstream);
    let up = trimmed(uc.as_slice());
    let mut out: Vec<SyncFinding> = Vec::new();
    let c = match counts {
        None => {
            out.push(unavailable_finding(&up));
            proof {
                assert(finding_views(out@) =~= seq![unavailable_view(up@)]);
            }
            return out;
        },
        Some(c) => c,
    };
    let cc = chars_of(c);
    let w = split_whitespace(cc.as_slice());
    proof {
        assert(vviews(w@).len() == w@.len());
    }
    if w.len() != 2 {
        out.push(unavailable_finding(&up));
        proof {
            assert(finding_views(out@) =~= seq![unavailable_view(up@)]);
        }
        return out;
    }
    proof {
        assert(vviews(w@)[0] == w@[0]@);
        assert(vviews(w@)[1] == w@[1]@);
    }
    let a = parse_u64(w[0].as_slice());
    let b = parse_u64(w[1].as_slice());
    match (a, b) {
        (Some(ahead), Some(behind)) => {
            if behind == 0 {
            } else if ahead == 0 {
                let m = cat(chars_of("The current branch is "), decimal_chars(behind).as_slice());
                let m = cat(m, chars_of(" commit(s) behind ").as_slice());
                let m = cat(cat(m, up.as_slice()), chars_of(".").as_slice());
                out.push(finding(
                    "git_branch_behind",
                    SyncFindingLevel::Error,
                    true,
                    None,
                    m,
                    chars_of("Update the working tree from its upstream, then run kb sync check again."),
                ));
            } else {
                let m = cat(chars_of("The current branch and "), up.as_slice());
                let m = cat(cat(m, chars_of(" have diverged (").as_slice()), decimal_chars(ahead).as_slice());
                let m = cat(cat(m, chars_of(" local, ").as_slice()), decimal_chars(behind).as_slice());
                let m = cat(m, chars_of(" upstream commit(s)).").as_slice());
                out.push(finding(
                    "git_branch_diverged",
                    SyncFindingLevel::Error,
                    true,
                    None,
                    m,
                    chars_of("Resolve the Git divergence without force-pushing, then run kb sync check and kb lint again."),
                ));
            }
        },
        _ => {
            out.push(unavailable_finding(&up));
        },
    }
    proof {
        assert(finding_views(out@) =~= upstream_views(upstream@, Some(c@)));
    }
    out
}

/// What Git's `rev-parse --show-toplevel` came to.
pub enum GitProbe {
    /// No `git` program was found.
    Missing,
    /// Git could not be run; the text says why.
    Failed(String),
    /// Git ran; its standard output and error, decoded lossily.
    Finished { success: bool, stdout: String, stderr: String },
}

/// Whether the repository could be inspected.
#[derive(Debug, Clone, Copy, PartialEq, Eq, Structural)]
pub enum GitInspectionState {
    Checked,
    NotRepository,
    Unavailable,
    Failed,
}

/// The outcome of inspecting the Vault's Git repository.
#[derive(Debug, Clone)]
pub struct GitInspection {
    pub state: GitInspectionState,
    pub repository_root: Option<String>,
    pub message: Option<String>,
}

pub open spec fn opt_chars(s: Option<String>) -> Option<Seq<char>> {
    match s {
        Some(v) => Some(v@),
        None => None,
    }
}

/// State, repository root and message for each probe outcome: a missing Git is
/// unavailable, an error is a failure with its text, a success names the
/// trimmed top level, anything else is no repository, with Git's trimmed
/// complaint when it gave one.
pub open spec fn inspection_of(probe: GitProbe) -> (GitInspectionState, Option<Seq<char>>, Option<Seq<char>>) {
    match probe {
        GitProbe::Missing => (
            GitInspectionState::Unavailable,
            None,
            Some("Git is unavailable; filesystem checks still ran."@),
        ),
        GitProbe::Failed(e) => (GitInspectionState::Failed, None, Some("Git inspection failed: "@ + e@)),
        GitProbe::Finished { success, stdout, stderr } => if success {
            (GitInspectionState::Checked, Some(trim(stdout@)), None)
        } else {
            (
                GitInspectionState::NotRepository,
                None,
                if trim(stderr@).len() > 0 { Some(trim(stderr@)) } else { None },
            )
        },
    }
}

/// The inspection that a probe outcome gives (see `inspection_of`).
pub fn git_inspection(probe: &GitProbe) -> (g: GitInspection)
    ensures
        (g.state, opt_chars(g.repository_root), opt_chars(g.message)) == inspection_of(*probe),
{
    match probe {
        GitProbe::Missing => GitInspection {
            state: GitInspectionState::Unavailable,
            repository_root: None,
            message: Some("Git is unavailable; filesystem checks still ran.".to_owned()),
        },
        GitProbe::Failed(e) => {
            let m = cat(chars_of("Git inspection failed: "), chars_of(e.as_str()).as_slice());
            GitInspection { state: GitInspectionState::Failed, repository_root: None, message: Some(string_of(m.as_slice())) }
        },
        GitProbe::Finished { success, stdout, stderr } => {
            if *success {
                let root = trimmed(chars_of(stdout.as_str()).as_slice());
                GitInspection {
                    state: GitInspectionState::Checked,
                    repository_root: Some(string_of(root.as_slice())),
                    message: None,
                }
            } else {
                let m = trimmed(chars_of(stderr.as_str()).as_slice());
                GitInspection {
                    state: GitInspectionState::NotRepository,
                    repository_root: None,
                    message: if m.len() > 0 { Some(string_of(m.as_slice())) } else { None },
                }
            }
        },
    }
}

/// Counts of findings by level, and whether any blocks shared writes.
#[derive(Debug, Clone, PartialEq, Eq, Structural)]
pub struct SyncSummary {
    pub errors: usize,
    pub warnings: usize,
    pub information: usize,
    pub writes_blocked: bool,
}

/// How many findings have the level.
pub open spec fn count_level(s: Seq<FindingView>, l: SyncFindingLevel) -> nat
    decreases s.len(),
{
    if s.len() == 0 {
        0
    } else {
        count_level(s.drop_last(), l) + if s.last().level == l { 1nat } else { 0nat }
    }
}

/// Some finding blocks shared writes.
pub open spec fn any_blocking(s: Seq<FindingView>) -> bool {
    exists|i: int| 0 <= i < s.len() && (#[trigger] s[i]).blocks_writes
}

proof fn lemma_count_bounded(s: Seq<FindingView>, l: SyncFindingLevel)
    ensures
        count_level(s, l) <= s.len(),
    decreases s.len(),
{
    if s.len() > 0 {
        lemma_count_bounded(s.drop_last(), l);
    }
}

/// The summary of a list of findings.
pub fn summarize(findings: &[SyncFinding]) -> (r: SyncSummary)
    ensures
        r.errors == count_level(finding_views(findings@), SyncFindingLevel::Error),
        r.warnings == count_level(finding_views(findings@), SyncFindingLevel::Warning),
        r.information == count_level(finding_views(findings@), SyncFindingLevel::Info),
        r.writes_blocked == any_blocking(finding_views(findings@)),
{
    let ghost fv = finding_views(findings@);
    let mut r = SyncSummary { errors: 0, warnings: 0, information: 0, writes_blocked: false };
    let mut i: usize = 0;
    while i < findings.len()
        invariant
            i <= findings@.len(),
            fv == finding_views(findings@),
            r.errors == count_level(fv.take(i as int), SyncFindingLevel::Error),
            r.warnings == count_level(fv.take(i as int), SyncFindingLevel::Warning),
            r.information == count_level(fv.take(i as int), SyncFindingLevel::Info),
            r.writes_blocked == any_blocking(fv.take(i as int)),
        decreases findings@.len() - i,
    {
        proof {
            assert(fv.take(i + 1).drop_last() =~= fv.take(i as int));
            assert(fv.take(i + 1).last() == finding_view(findings@[i as int]));
            lemma_count_bounded(fv.take(i as int), SyncFindingLevel::Error);
            lemma_count_bounded(fv.take(i as int), SyncFindingLevel::Warning);
            lemma_count_bounded(fv.take(i as int), SyncFindingLevel::Info);
            if any_blocking(fv.take(i + 1)) && !findings@[i as int].blocks_writes {
                let k = choose|k: int| 0 <= k < i + 1 && (#[trigger] fv.take(i + 1)[k]).blocks_writes;
                assert(fv.take(i as int)[k] == fv.take(i + 1)[k]);
            }
            if any_blocking(fv.take(i as int)) {
                let k = choose|k: int| 0 <= k < i && (#[trigger] fv.take(i as int)[k]).blocks_writes;
                assert(fv.take(i + 1)[k] == fv.take(i as int)[k]);
            }
            if findings@[i as int].blocks_writes {
                assert(fv.take(i + 1)[i as int].blocks_writes);
            }
        }
        match findings[i].level {
            SyncFindingLevel::Error => r.errors = r.errors + 1,
            SyncFindingLevel::Warning => r.warnings = r.warnings + 1,
            SyncFindingLevel::Info => r.information = r.information + 1,
        }
        if findings[i].blocks_writes {
            r.writes_blocked = true;
        }
        i = i + 1;
    }
    proof {
        assert(fv.take(findings@.len() as int) =~= fv);
    }
    r
}

/// Every finding has exactly one level: the three counts of a summary add up
/// to the number of findings.
pub proof fn summary_counts_every_finding(s: Seq<FindingView>)
    ensures
        count_level(s, SyncFindingLevel::Error) + count_level(s, SyncFindingLevel::Warning)
            + count_level(s, SyncFindingLevel::Info) == s.len(),
    decreases s.len(),
{
    if s.len() > 0 {
        summary_counts_every_finding(s.drop_last());
    }
}

/// The findings that block shared writes, in their order.
pub open spec fn blocking(s: Seq<FindingView>) -> Seq<FindingView>
    decreases s.len(),
{
    if s.len() == 0 {
        Seq::empty()
    } else if s.last().blocks_writes {
        blocking(s.drop_last()).push(s.last())
    } else {
        blocking(s.drop_last())
    }
}

fn keep_blocking(out: &mut Vec<SyncFinding>, from: Vec<SyncFinding>)
    ensures
        finding_views(final(out)@) == finding_views(old(out)@) + blocking(finding_views(from@)),
{
    let ghost base = finding_views(out@);
    let ghost fv = finding_views(from@);
    let mut i: usize = 0;
    proof {
        assert(fv.take(0) =~= Seq::<FindingView>::empty());
        assert(finding_views(out@) =~= base + blocking(fv.take(0)));
    }
    while i < from.len()
        invariant
            i <= from@.len(),
            fv == finding_views(from@),
            finding_views(out@) == base + blocking(fv.take(i as int)),
        decreases from@.len() - i,
    {
        proof {
            assert(fv.take(i + 1).drop_last() =~= fv.take(i as int));
            assert(fv.take(i + 1).last() == finding_view(from@[i as int]));
        }
        if from[i].blocks_writes {
            let f = from[i].duplicate();
            let ghost before = out@;
            out.push(f);
            proof {
                assert(finding_views(out@) =~= finding_views(before).push(finding_view(f)));
            }
        }
        i = i + 1;
    }
    proof {
        assert(fv.take(from@.len() as int) =~= fv);
    }
}

/// The findings that block shared writes: those among the conflict findings,
/// then those among the Git findings.
pub fn blocking_sync_findings(conflicts: Vec<SyncFinding>, git: Vec<SyncFinding>) -> (out: Vec<SyncFinding>)
    ensures
        finding_views(out@) == blocking(finding_views(conflicts@) + finding_views(git@)),
{
    let mut out: Vec<SyncFinding> = Vec::new();
    let ghost c = finding_views(conflicts@);
    let ghost g = finding_views(git@);
    keep_blocking(&mut out, conflicts);
    keep_blocking(&mut out, git);
    proof {
        blocking_distributes(c, g);
        assert(Seq::<FindingView>::empty() + blocking(c) =~= blocking(c));
    }
    out
}

/// Taking the blocking findings of two lists one after the other is taking
/// them of the joined list.
pub proof fn blocking_distributes(a: Seq<FindingView>, b: Seq<FindingView>)
    ensures
        blocking(a + b) == blocking(a) + blocking(b),
    decreases b.len(),
{
    if b.len() == 0 {
        assert(a + b =~= a);
        assert(blocking(a) + blocking(b) =~= blocking(a));
    } else {
        assert((a + b).drop_last() =~= a + b.drop_last());
        assert((a + b).last() == b.last());
        blocking_distributes(a, b.drop_last());
        if b.last().blocks_writes {
            assert(blocking(a) + blocking(b.drop_last()).push(b.last()) =~= (blocking(a) + blocking(b.drop_last())).push(b.last()));
        }
    }
}

/// Every finding that survives blocks writes, and every finding that blocks
/// writes survives; a second pass keeps them all.
pub proof fn blocking_keeps_exactly_the_blocking(s: Seq<FindingView>)
    ensures
        forall|i: int| 0 <= i < blocking(s).len() ==> (#[trigger] blocking(s)[i]).blocks_writes,
        forall|i: int| 0 <= i < s.len() && (#[trigger] s[i]).blocks_writes ==> blocking(s).contains(s[i]),
        blocking(blocking(s)) == blocking(s),
        blocking(s).len() <= s.len(),
    decreases s.len(),
{
    if s.len() > 0 {
        let r = s.drop_last();
        blocking_keeps_exactly_the_blocking(r);
        assert forall|i: int| 0 <= i < s.len() && (#[trigger] s[i]).blocks_writes implies blocking(s).contains(s[i]) by {
            if i < s.len() - 1 {
                assert(r[i] == s[i]);
                assert(blocking(r).contains(r[i]));
                let k = choose|k: int| 0 <= k < blocking(r).len() && blocking(r)[k] == r[i];
                if s.last().blocks_writes {
                    assert(blocking(s)[k] == s[i]);
                }
            } else {
                assert(blocking(s).last() == s[i]);
            }
        }
        if s.last().blocks_writes {
            assert(blocking(s).drop_last() =~= blocking(r));
        }
    }
}

/// `a` sorts before `b`, character by character (the order of `str`).
pub open spec fn chars_lt(a: Seq<char>, b: Seq<char>) -> bool
    decreases a.len(),
{
    if a.len() == 0 {
        b.len() > 0
    } else if b.len() == 0 {
        false
    } else if a[0] != b[0] {
        a[0] < b[0]
    } else {
        chars_lt(a.drop_first(), b.drop_first())
    }
}

/// A missing path sorts first.
pub open spec fn path_lt(a: Option<Seq<char>>, b: Option<Seq<char>>) -> bool {
    match (a, b) {
        (None, Some(_)) => true,
        (Some(x), Some(y)) => chars_lt(x, y),
        _ => false,
    }
}

pub open spec fn level_rank(l: SyncFindingLevel) -> nat {
    match l {
        SyncFindingLevel::Error => 0,
        SyncFindingLevel::Warning => 1,
        SyncFindingLevel::Info => 2,
    }
}

/// `a` sorts before `b` by code, then path; with `by_level`, by level first.
pub open spec fn finding_lt(a: FindingView, b: FindingView, by_level: bool) -> bool {
    if by_level && a.level != b.level {
        level_rank(a.level) < level_rank(b.level)
    } else if a.code != b.code {
        chars_lt(a.code, b.code)
    } else {
        path_lt(a.path, b.path)
    }
}

/// Where a finding goes in a sorted list: before the first finding that sorts
/// after it, so that equal findings keep their order.
pub open spec fn slot(s: Seq<FindingView>, x: FindingView, by_level: bool) -> int
    decreases s.len(),
{
    if s.len() == 0 {
        0
    } else if finding_lt(x, s[0], by_level) {
        0
    } else {
        1 + slot(s.drop_first(), x, by_level)
    }
}

/// A stable insertion sort of findings.
pub open spec fn sorted_findings(s: Seq<FindingView>, by_level: bool) -> Seq<FindingView>
    decreases s.len(),
{
    if s.len() == 0 {
        s
    } else {
        let r = sorted_findings(s.drop_last(), by_level);
        r.insert(slot(r, s.last(), by_level), s.last())
    }
}

fn chars_less(a: &[char], b: &[char]) -> (r: bool)
    ensures
        r == chars_lt(a@, b@),
{
    let mut i: usize = 0;
    proof {
        assert(a@.skip(0) =~= a@);
        assert(b@.skip(0) =~= b@);
    }
    while i < a.len() && i < b.len()
        invariant
            i <= a@.len(),
            i <= b@.len(),
            chars_lt(a@, b@) == chars_lt(a@.skip(i as int), b@.skip(i as int)),
        decreases a@.len() - i,
    {
        proof {
            assert(a@.skip(i as int)[0] == a@[i as int]);
            assert(b@.skip(i as int)[0] == b@[i as int]);
            assert(a@.skip(i as int).drop_first() =~= a@.skip(i + 1));
            assert(b@.skip(i as int).drop_first() =~= b@.skip(i + 1));
        }
        if a[i] != b[i] {
            return a[i] < b[i];
        }
        i = i + 1;
    }
    i == a.len() && i < b.len()
}

fn finding_less(a: &SyncFinding, b: &SyncFinding, by_level: bool) -> (r: bool)
    ensures
        r == finding_lt(finding_view(*a), finding_view(*b), by_level),
{
    if by_level && a.level != b.level {
        let ra: u8 = match a.level { SyncFindingLevel::Error => 0, SyncFindingLevel::Warning => 1, SyncFindingLevel::Info => 2 };
        let rb: u8 = match b.level { SyncFindingLevel::Error => 0, SyncFindingLevel::Warning => 1, SyncFindingLevel::Info => 2 };
        return ra < rb;
    }
    let ac = chars_of(a.code.as_str());
    let bc = chars_of(b.code.as_str());
    if !equal_chars(ac.as_slice(), bc.as_slice()) {
        return chars_less(ac.as_slice(), bc.as_slice());
    }
    match (&a.path, &b.path) {
        (None, Some(_)) => true,
        (Some(x), Some(y)) => chars_less(chars_of(x.as_str()).as_slice(), chars_of(y.as_str()).as_slice()),
        _ => false,
    }
}

fn find_slot(sorted: &Vec<SyncFinding>, f: &SyncFinding, by_level: bool) -> (j: usize)
    ensures
        j == slot(finding_views(sorted@), finding_view(*f), by_level),
        j <= sorted@.len(),
{
    let ghost sv = finding_views(sorted@);
    let mut j: usize = 0;
    proof {
        assert(sv.skip(0) =~= sv);
    }
    while j < sorted.len()
        invariant
            j <= sorted@.len(),
            sv == finding_views(sorted@),
            slot(sv, finding_view(*f), by_level) == j + slot(sv.skip(j as int), finding_view(*f), by_level),
        decreases sorted@.len() - j,
    {
        proof {
            assert(sv.skip(j as int)[0] == sv[j as int]);
            assert(sv.skip(j as int).drop_first() =~= sv.skip(j + 1));
        }
        if finding_less(f, &sorted[j], by_level) {
            return j;
        }
        j = j + 1;
    }
    j
}

/// The findings sorted by code and path, or by level, code and path; equal
/// findings keep their order.
pub fn sort_findings(findings: Vec<SyncFinding>, by_level: bool) -> (out: Vec<SyncFinding>)
    ensures
        finding_views(out@) == sorted_findings(finding_views(findings@), by_level),
{
    let ghost fv = finding_views(findings@);
    let mut out: Vec<SyncFinding> = Vec::new();
    let mut i: usize = 0;
    proof {
        assert(fv.take(0) =~= Seq::<FindingView>::empty());
        assert(finding_views(out@) =~= Seq::<FindingView>::empty());
    }
    while i < findings.len()
        invariant
            i <= findings@.len(),
            fv == finding_views(findings@),
            finding_views(out@) == sorted_findings(fv.take(i as int), by_level),
        decreases findings@.len() - i,
    {
        proof {
            assert(fv.take(i + 1).drop_last() =~= fv.take(i as int));
            assert(fv.take(i + 1).last() == finding_view(findings@[i as int]));
        }
        let f = findings[i].duplicate();
        let j = find_slot(&out, &f, by_level);
        let ghost before = out@;
        out.insert(j, f);
        proof {
            assert(finding_views(out@) =~= finding_views(before).insert(j as int, finding_view(f)));
        }
        i = i + 1;
    }
    proof {
        assert(fv.take(findings@.len() as int) =~= fv);
    }
    out
}

pub(crate) proof fn lemma_chars_lt_irreflexive(a: Seq<char>)
    ensures
        !chars_lt(a, a),
    decreases a.len(),
{
    if a.len() > 0 {
        lemma_chars_lt_irreflexive(a.drop_first());
    }
}

pub(crate) proof fn lemma_chars_lt_transitive(a: Seq<char>, b: Seq<char>, c: Seq<char>)
    requires
        chars_lt(a, b),
        chars_lt(b, c),
    ensures
        chars_lt(a, c),
    decreases a.len(),
{
    if a.len() > 0 && b.len() > 0 && c.len() > 0 && a[0] == b[0] && b[0] == c[0] {
        lemma_chars_lt_transitive(a.drop_first(), b.drop_first(), c.drop_first());
    }
}

pub(crate) proof fn lemma_chars_lt_asymmetric(a: Seq<char>, b: Seq<char>)
    requires
        chars_lt(a, b),
    ensures
        !chars_lt(b, a),
{
    if chars_lt(b, a) {
        lemma_chars_lt_transitive(a, b, a);
        lemma_chars_lt_irreflexive(a);
    }
}

proof fn lemma_finding_lt_order(a: FindingView, b: FindingView, c: FindingView, by_level: bool)
    ensures
        !finding_lt(a, a, by_level),
        finding_lt(a, b, by_level) ==> !finding_lt(b, a, by_level),
        finding_lt(a, b, by_level) && finding_lt(b, c, by_level) ==> finding_lt(a, c, by_level),
{
    lemma_chars_lt_irreflexive(a.code);
    if let Some(p) = a.path {
        lemma_chars_lt_irreflexive(p);
    }
    if chars_lt(a.code, b.code) {
        lemma_chars_lt_asymmetric(a.code, b.code);
    }
    if let (Some(x), Some(y)) = (a.path, b.path) {
        if chars_lt(x, y) {
            lemma_chars_lt_asymmetric(x, y);
        }
    }
    if finding_lt(a, b, by_level) && finding_lt(b, c, by_level) {
        if chars_lt(a.code, b.code) && chars_lt(b.code, c.code) {
            lemma_chars_lt_transitive(a.code, b.code, c.code);
        }
        if let (Some(x), Some(y), Some(z)) = (a.path, b.path, c.path) {
            if chars_lt(x, y) && chars_lt(y, z) {
                lemma_chars_lt_transitive(x, y, z);
            }
        }
        if chars_lt(a.code, b.code) {
            lemma_chars_lt_asymmetric(a.code, b.code);
        }
        if chars_lt(b.code, c.code) {
            lemma_chars_lt_asymmetric(b.code, c.code);
        }
    }
}

/// No finding sorts after a later one.
pub open spec fn is_sorted(s: Seq<FindingView>, by_level: bool) -> bool {
    forall|i: int, j: int| 0 <= i < j < s.len() ==> !finding_lt(#[trigger] s[j], #[trigger] s[i], by_level)
}

proof fn lemma_slot(s: Seq<FindingView>, x: FindingView, by_level: bool)
    ensures
        0 <= slot(s, x, by_level) <= s.len(),
        forall|i: int| 0 <= i < slot(s, x, by_level) ==> !finding_lt(x, #[trigger] s[i], by_level),
        slot(s, x, by_level) < s.len() ==> finding_lt(x, s[slot(s, x, by_level)], by_level),
    decreases s.len(),
{
    if s.len() > 0 && !finding_lt(x, s[0], by_level) {
        lemma_slot(s.drop_first(), x, by_level);
        assert forall|i: int| 0 <= i < slot(s, x, by_level) implies !finding_lt(x, #[trigger] s[i], by_level) by {
            if i > 0 {
                assert(s[i] == s.drop_first()[i - 1]);
            }
        }
    }
}

/// Sorting findings orders them and keeps every finding, each as often as it
/// came.
pub proof fn sorting_orders_and_keeps(s: Seq<FindingView>, by_level: bool)
    ensures
        is_sorted(sorted_findings(s, by_level), by_level),
        sorted_findings(s, by_level).to_multiset() == s.to_multiset(),
        sorted_findings(s, by_level).len() == s.len(),
    decreases s.len(),
{
    if s.len() > 0 {
        let r = sorted_findings(s.drop_last(), by_level);
        let x = s.last();
        sorting_orders_and_keeps(s.drop_last(), by_level);
        lemma_slot(r, x, by_level);
        let k = slot(r, x, by_level);
        let t = r.insert(k, x);
        assert forall|i: int, j: int| 0 <= i < j < t.len() implies !finding_lt(#[trigger] t[j], #[trigger] t[i], by_level) by {
            if j < k {
                assert(t[i] == r[i] && t[j] == r[j]);
            } else if j == k {
                assert(t[i] == r[i]);
            } else if i == k {
                assert(t[j] == r[j - 1]);
                assert(finding_lt(x, r[k], by_level));
                lemma_finding_lt_order(r[j - 1], x, r[k], by_level);
                lemma_finding_lt_order(x, r[k], r[k], by_level);
                if j - 1 > k {
                    assert(!finding_lt(r[j - 1], r[k], by_level));
                }
            } else if i < k {
                assert(t[i] == r[i] && t[j] == r[j - 1]);
            } else {
                assert(t[i] == r[i - 1] && t[j] == r[j - 1]);
            }
        }
        vstd::seq_lib::to_multiset_insert(r, k, x);
        assert(s =~= s.drop_last().push(x));
        vstd::seq_lib::to_multiset_build(s.drop_last(), x);
        vstd::seq_lib::to_multiset_len(s);
        vstd::seq_lib::to_multiset_len(t);
    }
}

/// The conflict-marker findings of the scanned files (path and text), in
/// their order (see `conflict_view`).
pub open spec fn conflicts_of(files: Seq<(Seq<char>, Seq<char>)>) -> Seq<FindingView>
    decreases files.len(),
{
    if files.len() == 0 {
        Seq::empty()
    } else {
        let rest = conflicts_of(files.drop_last());
        match conflict_view(files.last().0, files.last().1) {
            Some(f) => rest.push(f),
            None => rest,
        }
    }
}

pub open spec fn file_views(files: Seq<(String, String)>) -> Seq<(Seq<char>, Seq<char>)> {
    files.map_values(|f: (String, String)| (f.0@, f.1@))
}

/// The conflict-marker findings of the scanned files: the rules file, the
/// admission file, the shared configuration and the Wiki's Markdown files,
/// each with its Vault-relative path and text (see `conflicts_of`).
pub fn conflict_findings(files: &Vec<(String, String)>) -> (out: Vec<SyncFinding>)
    ensures
        finding_views(out@) == conflicts_of(file_views(files@)),
{
    let ghost fv = file_views(files@);
    let mut out: Vec<SyncFinding> = Vec::new();
    let mut i: usize = 0;
    proof {
        assert(fv.take(0) =~= Seq::<(Seq<char>, Seq<char>)>::empty());
        assert(finding_views(out@) =~= Seq::<FindingView>::empty());
    }
    while i < files.len()
        invariant
            i <= files@.len(),
            fv == file_views(files@),
            finding_views(out@) == conflicts_of(fv.take(i as int)),
        decreases files@.len() - i,
    {
        proof {
            assert(fv.take(i + 1).drop_last() =~= fv.take(i as int));
            assert(fv.take(i + 1).last() == (files@[i as int].0@, files@[i as int].1@));
        }
        match conflict_finding(files[i].0.as_str(), files[i].1.as_str()) {
            Some(f) => {
                let ghost before = out@;
                out.push(f);
                proof {
                    assert(finding_views(out@) =~= finding_views(before).push(finding_view(f)));
                }
            },
            None => {},
        }
        i = i + 1;
    }
    proof {
        assert(fv.take(files@.len() as int) =~= fv);
    }
    out
}

/// A scanned file that is managed and holds a conflict marker.
pub open spec fn blocked_file(f: (Seq<char>, Seq<char>)) -> bool {
    has_marker(f.1) && managed_file(f.0, f.1)
}

/// A blocking conflict finding at `path`.
pub open spec fn conflict_at(f: FindingView, path: Seq<char>) -> bool {
    f.path == Some(path) && f.code == "sync_conflict_marker"@ && f.level == SyncFindingLevel::Error
}

proof fn lemma_blocking_step(files: Seq<(Seq<char>, Seq<char>)>)
    requires
        files.len() > 0,
    ensures
        blocking(conflicts_of(files)) == if blocked_file(files.last()) {
            blocking(conflicts_of(files.drop_last())).push(conflict_view(files.last().0, files.last().1)->Some_0)
        } else {
            blocking(conflicts_of(files.drop_last()))
        },
        blocked_file(files.last()) ==> conflict_at(conflict_view(files.last().0, files.last().1)->Some_0, files.last().0),
{
    let init = files.drop_last();
    let last = files.last();
    match conflict_view(last.0, last.1) {
        Some(f) => {
            assert(conflicts_of(files) == conflicts_of(init).push(f));
            assert(conflicts_of(files).drop_last() == conflicts_of(init));
        },
        None => {},
    }
}

proof fn lemma_blocked_files_found(files: Seq<(Seq<char>, Seq<char>)>)
    ensures
        forall|k: int| 0 <= k < files.len() && blocked_file(#[trigger] files[k]) ==> exists|j: int|
            0 <= j < blocking(conflicts_of(files)).len() && conflict_at(#[trigger] blocking(conflicts_of(files))[j], files[k].0),
    decreases files.len(),
{
    if files.len() > 0 {
        let init = files.drop_last();
        lemma_blocked_files_found(init);
        lemma_blocking_step(files);
        let b0 = blocking(conflicts_of(init));
        let b = blocking(conflicts_of(files));
        assert forall|k: int| 0 <= k < files.len() && blocked_file(#[trigger] files[k]) implies exists|j: int|
            0 <= j < b.len() && conflict_at(#[trigger] b[j], files[k].0) by {
            if k < init.len() {
                assert(files[k] == init[k]);
                let j = choose|j: int| 0 <= j < b0.len() && conflict_at(#[trigger] b0[j], init[k].0);
                assert(b[j] == b0[j]);
            } else {
                assert(conflict_at(b[b.len() - 1], files[k].0));
            }
        }
    }
}

proof fn lemma_blocking_from_files(files: Seq<(Seq<char>, Seq<char>)>)
    ensures
        forall|j: int| 0 <= j < blocking(conflicts_of(files)).len() ==> exists|k: int|
            0 <= k < files.len() && blocked_file(#[trigger] files[k])
                && (#[trigger] blocking(conflicts_of(files))[j]).path == Some(files[k].0),
    decreases files.len(),
{
    if files.len() > 0 {
        let init = files.drop_last();
        lemma_blocking_from_files(init);
        lemma_blocking_step(files);
        let b0 = blocking(conflicts_of(init));
        let b = blocking(conflicts_of(files));
        assert forall|j: int| 0 <= j < b.len() implies exists|k: int|
            0 <= k < files.len() && blocked_file(#[trigger] files[k]) && (#[trigger] b[j]).path == Some(files[k].0) by {
            if j < b0.len() {
                assert(b[j] == b0[j]);
                let k = choose|k: int| 0 <= k < init.len() && blocked_file(#[trigger] init[k]) && b0[j].path == Some(init[k].0);
                assert(files[k] == init[k]);
            } else {
                assert(files[files.len() - 1] == files.last());
            }
        }
    }
}

/// Of the scanned files, exactly the managed ones that hold a conflict
/// marker block writes: each gives a blocking error finding at its path, and
/// every blocking conflict finding is at the path of such a file.
pub proof fn conflict_scan_blocks_managed_files(files: Seq<(Seq<char>, Seq<char>)>)
    ensures
        forall|k: int| 0 <= k < files.len() && blocked_file(#[trigger] files[k]) ==> exists|j: int|
            0 <= j < blocking(conflicts_of(files)).len() && conflict_at(#[trigger] blocking(conflicts_of(files))[j], files[k].0),
        forall|j: int| 0 <= j < blocking(conflicts_of(files)).len() ==> exists|k: int|
            0 <= k < files.len() && blocked_file(#[trigger] files[k])
                && (#[trigger] blocking(conflicts_of(files))[j]).path == Some(files[k].0),
{
    lemma_blocked_files_found(files);
    lemma_blocking_from_files(files);
}

/// Refuse a shared write while any blocking finding stands; the error
/// reports those findings.
pub fn ensure_shared_write_sync_safe(blocking_findings: &Vec<SyncFinding>) -> (r: Result<(), KbError>)
    ensures
        r is Ok <==> blocking_findings@.len() == 0,
        r matches Err(e) ==> e.code == ErrorCode::SyncConflict && !e.retryable
            && e.message@ == "Knowledge-Brain cannot write shared Vault files while synchronization conflicts are unresolved."@
            && e.remediation@ == "Resolve the reported files and run kb sync check again."@
            && finding_views(e.findings@) == finding_views(blocking_findings@),
{
    if blocking_findings.len() == 0 {
        return Ok(());
    }
    let findings = copy_findings(blocking_findings);
    Err(KbError {
        code: ErrorCode::SyncConflict,
        message: "Knowledge-Brain cannot write shared Vault files while synchronization conflicts are unresolved.".to_owned(),
        retryable: false,
        remediation: "Resolve the reported files and run kb sync check again.".to_owned(),
        resource_uri: None,
        findings,
    })
}

fn copy_findings(v: &Vec<SyncFinding>) -> (out: Vec<SyncFinding>)
    ensures
        finding_views(out@) == finding_views(v@),
{
    let mut out: Vec<SyncFinding> = Vec::new();
    let mut i: usize = 0;
    while i < v.len()
        invariant
            i <= v@.len(),
            finding_views(out@) == finding_views(v@.take(i as int)),
        decreases v@.len() - i,
    {
        let f = &v[i];
        let c = SyncFinding {
            code: f.code.clone(),
            level: f.level,
            blocks_writes: f.blocks_writes,
            path: match &f.path {
                Some(p) => Some(p.clone()),
                None => None,
            },
            message: f.message.clone(),
            next_action: f.next_action.clone(),
        };
        let ghost before = out@;
        out.push(c);
        proof {
            assert(v@.take(i + 1) =~= v@.take(i as int).push(v@[i as int]));
            assert(finding_views(out@) =~= finding_views(before).push(finding_view(c)));
            assert(finding_views(v@.take(i + 1)) =~= finding_views(v@.take(i as int)).push(finding_view(v@[i as int])));
        }
        i = i + 1;
    }
    proof {
        assert(v@.take(v@.len() as int) =~= v@);
    }
    out
}

/// A lint error as a synchronization finding: it blocks writes for a duplicate
/// title and for the Wiki index and log.
pub fn lint_finding(code: &str, path: &str, message: &str, remediation: &str) -> (f: SyncFinding)
    ensures
        finding_view(f) == (FindingView {
            code: code@,
            level: SyncFindingLevel::Error,
            blocks_writes: code@ == "duplicate_title"@ || path@ == "Wiki/index.md"@ || path@ == "Wiki/log.md"@,
            path: Some(path@),
            message: message@,
            next_action: remediation@,
        }),
{
    let c = chars_of(code);
    let p = chars_of(path);
    let blocks = is_lit(c.as_slice(), "duplicate_title") || is_lit(p.as_slice(), "Wiki/index.md")
        || is_lit(p.as_slice(), "Wiki/log.md");
    finding(code, SyncFindingLevel::Error, blocks, Some(p), chars_of(message), chars_of(remediation))
}

/// The finding for unfinished operations on this device, when there are any.
pub fn incomplete_operation_finding(pending_operations: usize) -> (r: Option<SyncFinding>)
    ensures
        r is Some <==> pending_operations > 0,
        r matches Some(f) ==> finding_view(f) == (FindingView {
            code: "incomplete_operation"@,
            level: SyncFindingLevel::Error,
            blocks_writes: true,
            path: Some(".kb/runtime"@),
            message: "This device has an unfinished Knowledge-Brain operation."@,
            next_action: "Recover or finish the operation before receiving synchronized changes."@,
        }),
{
    if pending_operations == 0 {
        return None;
    }
    Some(finding(
        "incomplete_operation",
        SyncFindingLevel::Error,
        true,
        Some(chars_of(".kb/runtime")),
        chars_of("This device has an unfinished Knowledge-Brain operation."),
        chars_of("Recover or finish the operation before receiving synchronized changes."),
    ))
}

/// The warning for a local search index that no longer matches the Vault.
pub fn stale_index_finding(message: &str) -> (f: SyncFinding)
    ensures
        finding_view(f) == (FindingView {
            code: "local_search_index_stale"@,
            level: SyncFindingLevel::Warning,
            blocks_writes: false,
            path: Some(".kb/cache/bm25.json"@),
            message: message@,
            next_action: "Run kb cache rebuild on this device, or continue with direct-search fallback."@,
        }),
{
    finding(
        "local_search_index_stale",
        SyncFindingLevel::Warning,
        false,
        Some(chars_of(".kb/cache/bm25.json")),
        chars_of(message),
        chars_of("Run kb cache rebuild on this device, or continue with direct-search fallback."),
    )
}

fn append_findings(out: &mut Vec<SyncFinding>, more: Vec<SyncFinding>)
    ensures
        finding_views(final(out)@) == finding_views(old(out)@) + finding_views(more@),
{
    let mut more = more;
    let ghost before = out@;
    let ghost added = more@;
    out.append(&mut more);
    proof {
        assert(finding_views(out@) =~= finding_views(before) + finding_views(added));
    }
}

/// The findings of a Git repository, sorted by code and path: unmerged entries
/// (from `ls-files -z --unmerged`, when it succeeded), the upstream findings,
/// tracked_paths machine-local files (from `ls-files -z` of those paths, when it
/// succeeded) and the ignore and attribute rules.
pub fn repository_findings(
    unmerged: Option<&[u8]>,
    upstream: Vec<SyncFinding>,
    tracked_paths: Option<&[u8]>,
    gitignore: &str,
    gitattributes: &str,
) -> (out: Vec<SyncFinding>)
    ensures
        finding_views(out@) == sorted_findings(
            (match unmerged {
                Some(b) => nul_split(b@).map_values(|r: Seq<char>| unmerged_view(r)),
                None => Seq::empty(),
            }) + finding_views(upstream@) + (match tracked_paths {
                Some(b) => nul_split(b@).map_values(|r: Seq<char>| tracked_view(r)),
                None => Seq::empty(),
            }) + rule_views(gitignore@, gitattributes@),
            false,
        ),
{
    let mut all: Vec<SyncFinding> = Vec::new();
    proof {
        assert(finding_views(all@) =~= Seq::<FindingView>::empty());
    }
    match unmerged {
        Some(b) => append_findings(&mut all, unmerged_findings(b)),
        None => {},
    }
    append_findings(&mut all, upstream);
    match tracked_paths {
        Some(b) => append_findings(&mut all, tracked_local_findings(b)),
        None => {},
    }
    append_findings(&mut all, rule_findings(gitignore, gitattributes));
    proof {
        let u = match unmerged {
            Some(b) => nul_split(b@).map_values(|r: Seq<char>| unmerged_view(r)),
            None => Seq::<FindingView>::empty(),
        };
        assert(Seq::<FindingView>::empty() + u =~= u);
    }
    sort_findings(all, false)
}

} // verus!
