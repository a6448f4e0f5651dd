//! Planning a knowledge save: every page must be as it was observed,
//! candidates must cite admitted exact source versions, each change
//! becomes the writes it makes, and the writes are previewed as a diff.
use vstd::prelude::*;
use crate::config::prefixed_lines;
use crate::error::{config_message, ErrorCode, KbError};
use crate::extract::opt_view;
use crate::knowledge_apply::KnowledgeWrite;
use crate::lint::{OkfFinding, OkfSeverity};
use crate::managed_markdown::IndexEntry;
use crate::source_io::{hash, hex_chars, sha256_digest};
use crate::text::{append_chars, chars_of, equal_chars, lines_of, starts_with, starts_with_exec, string_of, views};
use crate::vault_upgrade::push_marked;

verus! {

/// What to do next after a stale plan input.
pub open spec fn stale_remediation() -> Seq<char> {
    "Read the current target and create a new knowledge request."@
}

/// The error of a plan whose inputs changed since they were read.
pub fn stale(message: &str) -> (e: KbError)
    ensures
        e.code == ErrorCode::PlanStale,
        e.message@ == message@,
        !e.retryable,
        e.remediation@ == stale_remediation(),
{
    KbError::new(ErrorCode::PlanStale, message, false, "Read the current target and create a new knowledge request.")
}

fn stale_at(path: &str, detail: &str) -> (e: KbError)
    ensures
        e.code == ErrorCode::PlanStale,
        e.message@ == path@ + detail@,
        !e.retryable,
        e.remediation@ == stale_remediation(),
{
    let mut m = chars_of(path);
    append_chars(&mut m, chars_of(detail).as_slice());
    stale(string_of(m.as_slice()).as_str())
}

pub open spec fn bytes_view(o: Option<Vec<u8>>) -> Option<Seq<u8>> {
    match o {
        Some(b) => Some(b@),
        None => None,
    }
}

/// A page is as it was observed: missing where no digest was observed,
/// else present with the observed SHA-256.
pub open spec fn observed(current: Option<Seq<u8>>, expected: Option<Seq<char>>) -> bool {
    match current {
        None => expected is None,
        Some(b) => expected == Some(hex_chars(sha256_digest(b))),
    }
}

/// Check that a page is as it was observed (see `observed`).
pub fn ensure_observed(path: &str, current: &Option<Vec<u8>>, expected: &Option<String>) -> (r: Result<(), KbError>)
    ensures
        r is Ok <==> observed(bytes_view(*current), opt_view(*expected)),
        r matches Err(e) ==> e.code == ErrorCode::PlanStale && e.message@ == path@
            + " changed before the plan was created."@ && e.remediation@ == stale_remediation(),
{
    let same = match current {
        None => expected.is_none(),
        Some(b) => match expected {
            Some(e) => {
                let h = hash(b.as_slice());
                equal_chars(chars_of(h.as_str()).as_slice(), chars_of(e.as_str()).as_slice())
            },
            None => false,
        },
    };
    if !same {
        return Err(stale_at(path, " changed before the plan was created."));
    }
    Ok(())
}

/// The bytes of a page that a delete or move needs: missing is stale.
pub fn required(path: &str, current: Option<Vec<u8>>) -> (r: Result<Vec<u8>, KbError>)
    ensures
        r is Ok <==> current is Some,
        r matches Ok(b) ==> bytes_view(current) == Some(b@),
        r matches Err(e) ==> e.code == ErrorCode::PlanStale && e.message@ == path@
            + " does not exist at the observed source path."@,
{
    match current {
        Some(b) => Ok(b),
        None => Err(stale_at(path, " does not exist at the observed source path.")),
    }
}

/// A reference to an exact source version.
pub open spec fn exact_ref(r: Seq<char>) -> bool {
    starts_with(r, "kb-source://"@)
}

/// A candidate that is not managed, or has an error or a staleness finding.
pub open spec fn rejected(managed: bool, findings: Seq<OkfFinding>) -> bool {
    !managed || exists|i: int|
        0 <= i < findings.len() && ((#[trigger] findings[i]).severity == OkfSeverity::Error || findings[i].code@
            == "stale_document"@)
}

/// How many of the references are checked before the first exact one that
/// names no available version (all of them when there is none).
pub open spec fn checked_count(sources: Seq<Seq<char>>, available: Seq<Seq<char>>) -> nat
    decreases sources.len(),
{
    if sources.len() == 0 {
        0
    } else if exact_ref(sources[0]) && !available.contains(sources[0]) {
        0
    } else {
        1 + checked_count(sources.drop_first(), available)
    }
}

/// The exact references among some references.
pub open spec fn exact_refs(sources: Seq<Seq<char>>) -> Set<Seq<char>> {
    Set::new(|x: Seq<char>| exists|j: int| 0 <= j < sources.len() && #[trigger] sources[j] == x && exact_ref(x))
}

/// Some reference names an exact source version.
pub open spec fn cites_exact(sources: Seq<Seq<char>>) -> bool {
    exists|j: int| 0 <= j < sources.len() && exact_ref(#[trigger] sources[j])
}

/// The message of a candidate that does not satisfy the producer profile.
pub open spec fn profile_detail() -> Seq<char> {
    "knowledge target must satisfy the managed OKF Producer Profile and not be stale"@
}

/// What to do about external research without an exact source.
pub open spec fn admission_remediation() -> Seq<char> {
    "Save the source from an enabled admission directory, then reference its exact kb-source URI."@
}

fn is_rejected(managed: bool, findings: &Vec<OkfFinding>) -> (b: bool)
    ensures
        b == rejected(managed, findings@),
{
    if !managed {
        return true;
    }
    let mut i: usize = 0;
    while i < findings.len()
        invariant
            i <= findings@.len(),
            forall|k: int|
                0 <= k < i ==> !((#[trigger] findings@[k]).severity == OkfSeverity::Error || findings@[k].code@
                    == "stale_document"@),
        decreases findings@.len() - i,
    {
        let f = &findings[i];
        let stale_code = equal_chars(chars_of(f.code.as_str()).as_slice(), chars_of("stale_document").as_slice());
        if f.severity == OkfSeverity::Error || stale_code {
            return true;
        }
        i = i + 1;
    }
    false
}

fn listed(v: &Vec<String>, s: &str) -> (b: bool)
    ensures
        b == views(v@).contains(s@),
{
    let ghost vv = views(v@);
    let mut j: usize = 0;
    while j < v.len()
        invariant
            j <= v@.len(),
            vv == views(v@),
            forall|k: int| 0 <= k < j ==> vv[k] != s@,
        decreases v@.len() - j,
    {
        if equal_chars(chars_of(v[j].as_str()).as_slice(), chars_of(s).as_slice()) {
            proof {
                assert(vv[j as int] == s@);
            }
            return true;
        }
        j = j + 1;
    }
    false
}

proof fn lemma_checked_step(s: Seq<Seq<char>>, a: Seq<Seq<char>>, i: int)
    requires
        0 <= i < s.len(),
    ensures
        checked_count(s.skip(i), a) == (if exact_ref(s[i]) && !a.contains(s[i]) {
            0
        } else {
            1 + checked_count(s.skip(i + 1), a)
        }),
{
    assert(s.skip(i).drop_first() =~= s.skip(i + 1));
    assert(s.skip(i)[0] == s[i]);
}

proof fn lemma_refs_push(p: Seq<Seq<char>>, a: Seq<char>)
    ensures
        forall|x: Seq<char>|
            #![trigger exact_refs(p.push(a)).contains(x)]
            exact_refs(p.push(a)).contains(x) <==> exact_refs(p).contains(x) || (x == a && exact_ref(a)),
        cites_exact(p.push(a)) == (cites_exact(p) || exact_ref(a)),
{
    let q = p.push(a);
    assert forall|x: Seq<char>| exact_refs(q).contains(x) implies exact_refs(p).contains(x) || (x == a && exact_ref(a)) by {
        let j = choose|j: int| 0 <= j < q.len() && #[trigger] q[j] == x && exact_ref(x);
        if j < p.len() {
            assert(p[j] == x);
        }
    }
    assert forall|x: Seq<char>| exact_refs(p).contains(x) || (x == a && exact_ref(a)) implies exact_refs(q).contains(x) by {
        if exact_refs(p).contains(x) {
            let j = choose|j: int| 0 <= j < p.len() && #[trigger] p[j] == x && exact_ref(x);
            assert(q[j] == x);
        } else {
            assert(q[p.len() as int] == x);
        }
    }
    if cites_exact(q) {
        let j = choose|j: int| 0 <= j < q.len() && exact_ref(#[trigger] q[j]);
        if j < p.len() {
            assert(p[j] == q[j]);
        }
    }
    if cites_exact(p) {
        let j = choose|j: int| 0 <= j < p.len() && exact_ref(#[trigger] p[j]);
        assert(q[j] == p[j]);
    }
    if exact_ref(a) {
        assert(q[p.len() as int] == a);
    }
}

proof fn lemma_contains_push(e: Seq<Seq<char>>, a: Seq<char>)
    ensures
        forall|x: Seq<char>| #![trigger e.push(a).contains(x)] e.push(a).contains(x) <==> e.contains(x) || x == a,
{
    let q = e.push(a);
    assert forall|x: Seq<char>| q.contains(x) implies e.contains(x) || x == a by {
        let j = choose|j: int| 0 <= j < q.len() && q[j] == x;
        if j < e.len() {
            assert(e[j] == x);
        }
    }
    assert forall|x: Seq<char>| e.contains(x) || x == a implies q.contains(x) by {
        if e.contains(x) {
            let j = choose|j: int| 0 <= j < e.len() && e[j] == x;
            assert(q[j] == x);
        } else {
            assert(q[e.len() as int] == x);
        }
    }
}

/// Check a candidate page: it must satisfy the managed profile, every exact
/// source it cites must be available, and external research must cite one.
/// The exact sources it cites are added to `exact`, up to the first that is
/// not available.
pub fn validate_candidate(
    path: &str,
    managed: bool,
    findings: &Vec<OkfFinding>,
    external_research: bool,
    sources: &Vec<String>,
    available: &Vec<String>,
    exact: &mut Vec<String>,
) -> (r: Result<(), KbError>)
    ensures
        r is Ok <==> !rejected(managed, findings@) && checked_count(views(sources@), views(available@))
            == sources@.len() && !(external_research && !cites_exact(views(sources@))),
        rejected(managed, findings@) ==> (r matches Err(e) && e.code == ErrorCode::InvalidConfig && e.message@
            == config_message(path@, profile_detail())),
        !rejected(managed, findings@) && checked_count(views(sources@), views(available@)) < sources@.len() ==> (r matches Err(e)
            && e.code == ErrorCode::InvalidConfig && e.message@ == config_message(
            path@,
            "exact source version does not exist: "@ + sources@[checked_count(views(sources@), views(available@)) as int]@,
        )),
        !rejected(managed, findings@) && checked_count(views(sources@), views(available@)) == sources@.len()
            && external_research && !cites_exact(views(sources@)) ==> (r matches Err(e) && e.code
            == ErrorCode::InvalidConfig && e.message@ == "External research "@ + path@
            + " has no admitted exact source version."@ && !e.retryable && e.remediation@ == admission_remediation()),
        forall|x: Seq<char>|
            views(final(exact)@).contains(x) <==> views(old(exact)@).contains(x) || (!rejected(managed, findings@)
                && exact_refs(views(sources@).take(checked_count(views(sources@), views(available@)) as int)).contains(x)),
        views(old(exact)@).no_duplicates() ==> views(final(exact)@).no_duplicates(),
{
    let ghost old_exact = views(exact@);
    let ghost sv = views(sources@);
    let ghost av = views(available@);
    if is_rejected(managed, findings) {
        proof {
            assert forall|x: Seq<char>| views(exact@).contains(x) <==> old_exact.contains(x) || (!rejected(
                managed,
                findings@,
            ) && exact_refs(sv.take(checked_count(sv, av) as int)).contains(x)) by {}
        }
        return Err(KbError::invalid_config(path, "knowledge target must satisfy the managed OKF Producer Profile and not be stale"));
    }
    let mut has_exact = false;
    let mut i: usize = 0;
    proof {
        assert(sv.skip(0) =~= sv);
        assert(sv.take(0) =~= Seq::<Seq<char>>::empty());
    }
    while i < sources.len()
        invariant
            i <= sources@.len(),
            sv == views(sources@),
            av == views(available@),
            old_exact == views(old(exact)@),
            !rejected(managed, findings@),
            checked_count(sv, av) == i + checked_count(sv.skip(i as int), av),
            has_exact == cites_exact(sv.take(i as int)),
            forall|x: Seq<char>|
                #![trigger views(exact@).contains(x)]
                #![trigger exact_refs(sv.take(i as int)).contains(x)]
                views(exact@).contains(x) <==> old_exact.contains(x) || exact_refs(sv.take(i as int)).contains(x),
            old_exact.no_duplicates() ==> views(exact@).no_duplicates(),
        decreases sources@.len() - i,
    {
        let s = sources[i].as_str();
        let ghost e0 = views(exact@);
        proof {
            lemma_checked_step(sv, av, i as int);
            assert(sv[i as int] == s@);
            assert(sv.take(i + 1) =~= sv.take(i as int).push(s@));
            lemma_refs_push(sv.take(i as int), s@);
            assert(forall|x: Seq<char>|
                #![trigger e0.contains(x)]
                e0.contains(x) <==> old_exact.contains(x) || exact_refs(sv.take(i as int)).contains(x));
        }
        if starts_with_exec(chars_of(s).as_slice(), chars_of("kb-source://").as_slice()) {
            if !listed(available, s) {
                let mut m = chars_of("exact source version does not exist: ");
                append_chars(&mut m, chars_of(s).as_slice());
                proof {
                    assert(checked_count(sv, av) == i);
                    assert(sources@[i as int]@ == s@);
                }
                return Err(KbError::invalid_config(path, string_of(m.as_slice()).as_str()));
            }
            has_exact = true;
            if !listed(exact, s) {
                exact.push(s.to_owned());
                proof {
                    assert(views(exact@) =~= e0.push(s@));
                    lemma_contains_push(e0, s@);
                    assert(e0.no_duplicates() ==> views(exact@).no_duplicates()) by {
                        if e0.no_duplicates() {
                            assert forall|a: int, b: int| 0 <= a < b < views(exact@).len() implies views(exact@)[a]
                                != views(exact@)[b] by {
                                if b == e0.len() {
                                    assert(e0[a] == views(exact@)[a]);
                                }
                            }
                        }
                    }
                }
            }
        }
        proof {
            assert forall|x: Seq<char>| views(exact@).contains(x) <==> old_exact.contains(x) || exact_refs(
                sv.take(i + 1),
            ).contains(x) by {
                assert(views(exact@).contains(x) <==> e0.contains(x) || (x == s@ && exact_ref(s@)));
                assert(e0.contains(x) <==> old_exact.contains(x) || exact_refs(sv.take(i as int)).contains(x));
                assert(exact_refs(sv.take(i as int).push(s@)).contains(x) <==> exact_refs(sv.take(i as int)).contains(x) || (x == s@ && exact_ref(s@)));
                assert(exact_refs(sv.take(i + 1)).contains(x) <==> exact_refs(sv.take(i as int)).contains(x) || (x == s@ && exact_ref(s@)));
            }
        }
        i = i + 1;
    }
    proof {
        assert(sv.take(sources@.len() as int) =~= sv);
        assert(sv.skip(sources@.len() as int) =~= Seq::<Seq<char>>::empty());
        assert(checked_count(sv.skip(sources@.len() as int), av) == 0);
        assert(checked_count(sv, av) == sources@.len());
        assert(sv.take(checked_count(sv, av) as int) == sv.take(sources@.len() as int));
        assert forall|x: Seq<char>|
            views(exact@).contains(x) <==> old_exact.contains(x) || exact_refs(
                sv.take(checked_count(sv, av) as int),
            ).contains(x) by {
            assert(views(exact@).contains(x) <==> old_exact.contains(x) || exact_refs(
                sv.take(sources@.len() as int),
            ).contains(x));
        }
    }
    if external_research && !has_exact {
        let mut m = chars_of("External research ");
        append_chars(&mut m, chars_of(path).as_slice());
        append_chars(&mut m, chars_of(" has no admitted exact source version.").as_slice());
        return Err(
            KbError::new(
                ErrorCode::InvalidConfig,
                string_of(m.as_slice()).as_str(),
                false,
                "Save the source from an enabled admission directory, then reference its exact kb-source URI.",
            ),
        );
    }
    Ok(())
}

/// What a knowledge change does to a page.
#[derive(Debug, Clone, Copy, PartialEq, Eq, Structural)]
pub enum KnowledgeChangeKind {
    Upsert,
    Delete,
    Move,
}

/// A planned write as values.
pub struct PlannedWrite {
    pub path: Seq<char>,
    pub before: Option<Seq<char>>,
    pub delete: bool,
    pub content: Seq<char>,
}

pub open spec fn planned(w: KnowledgeWrite) -> PlannedWrite {
    PlannedWrite { path: w.path@, before: opt_view(w.before_sha256), delete: w.delete, content: w.content@ }
}

pub open spec fn planned_all(ws: Seq<KnowledgeWrite>) -> Seq<PlannedWrite> {
    ws.map_values(|w: KnowledgeWrite| planned(w))
}

/// The writes one change makes, all under `Wiki/`: an upsert writes the
/// page, a delete removes it, and a move writes the new page (which must not
/// have existed) and then removes the old one. A move without the page it
/// comes from makes none.
pub open spec fn writes_of(
    kind: KnowledgeChangeKind,
    path: Seq<char>,
    from: Option<Seq<char>>,
    before: Option<Seq<char>>,
    content: Seq<char>,
) -> Option<Seq<PlannedWrite>> {
    match kind {
        KnowledgeChangeKind::Upsert => Some(
            seq![PlannedWrite { path: "Wiki/"@ + path, before, delete: false, content }],
        ),
        KnowledgeChangeKind::Delete => Some(
            seq![PlannedWrite { path: "Wiki/"@ + path, before, delete: true, content: Seq::empty() }],
        ),
        KnowledgeChangeKind::Move => match from {
            None => None,
            Some(f) => Some(
                seq![
                    PlannedWrite { path: "Wiki/"@ + path, before: None, delete: false, content },
                    PlannedWrite { path: "Wiki/"@ + f, before, delete: true, content: Seq::empty() },
                ],
            ),
        },
    }
}

fn wiki_path(path: &str) -> (out: String)
    ensures
        out@ == "Wiki/"@ + path@,
{
    let mut p = chars_of("Wiki/");
    append_chars(&mut p, chars_of(path).as_slice());
    string_of(p.as_slice())
}

fn copy_text(o: &Option<String>) -> (out: Option<String>)
    ensures
        opt_view(out) == opt_view(*o),
{
    match o {
        Some(s) => Some(s.clone()),
        None => None,
    }
}

/// The writes of one change (see `writes_of`).
pub fn change_writes(
    kind: KnowledgeChangeKind,
    path: &str,
    from_path: &Option<String>,
    before_sha256: &Option<String>,
    content: &str,
) -> (r: Result<Vec<KnowledgeWrite>, KbError>)
    ensures
        r is Ok <==> writes_of(kind, path@, opt_view(*from_path), opt_view(*before_sha256), content@) is Some,
        r matches Ok(ws) ==> Some(planned_all(ws@)) == writes_of(
            kind,
            path@,
            opt_view(*from_path),
            opt_view(*before_sha256),
            content@,
        ),
        r matches Err(e) ==> e.code == ErrorCode::InvalidConfig && e.message@ == config_message(
            "knowledge request move"@,
            "from_path is required"@,
        ),
{
    let mut out: Vec<KnowledgeWrite> = Vec::new();
    match kind {
        KnowledgeChangeKind::Upsert => {
            out.push(
                KnowledgeWrite {
                    path: wiki_path(path),
                    before_sha256: copy_text(before_sha256),
                    delete: false,
                    content: content.to_owned(),
                },
            );
        },
        KnowledgeChangeKind::Delete => {
            out.push(
                KnowledgeWrite {
                    path: wiki_path(path),
                    before_sha256: copy_text(before_sha256),
                    delete: true,
                    content: String::new(),
                },
            );
        },
        KnowledgeChangeKind::Move => {
            let from = match from_path {
                Some(f) => f,
                None => {
                    return Err(KbError::invalid_config("knowledge request move", "from_path is required"));
                },
            };
            out.push(KnowledgeWrite { path: wiki_path(path), before_sha256: None, delete: false, content: content.to_owned() });
            out.push(
                KnowledgeWrite {
                    path: wiki_path(from.as_str()),
                    before_sha256: copy_text(before_sha256),
                    delete: true,
                    content: String::new(),
                },
            );
        },
    }
    proof {
        assert(Some(planned_all(out@)) =~= writes_of(
            kind,
            path@,
            opt_view(*from_path),
            opt_view(*before_sha256),
            content@,
        ));
    }
    Ok(out)
}

/// The diff section of one write: the old path (or `/dev/null` for a new
/// file), the new path (or `/dev/null` for a delete), every old line, and
/// every new line unless the file is deleted.
pub open spec fn section(w: PlannedWrite, before: Seq<char>) -> Seq<char> {
    "--- "@ + (if w.before is Some { w.path } else { "/dev/null"@ }) + "\n+++ "@ + (if w.delete {
        "/dev/null"@
    } else {
        w.path
    }) + "\n@@ complete file @@\n"@ + prefixed_lines(lines_of(before), '-') + (if w.delete {
        Seq::empty()
    } else {
        prefixed_lines(lines_of(w.content), '+')
    })
}

/// The preview diff of the writes, given each file's current text (empty
/// when missing).
pub open spec fn plan_diff(ws: Seq<PlannedWrite>, befores: Seq<Seq<char>>) -> Seq<char>
    decreases ws.len(),
{
    if ws.len() == 0 || befores.len() != ws.len() {
        Seq::empty()
    } else {
        plan_diff(ws.drop_last(), befores.drop_last()) + section(ws.last(), befores.last())
    }
}

/// The preview diff of a knowledge plan (see `plan_diff`).
pub fn render_diff(writes: &Vec<KnowledgeWrite>, befores: &Vec<String>) -> (d: String)
    requires
        befores@.len() == writes@.len(),
    ensures
        d@ == plan_diff(planned_all(writes@), views(befores@)),
{
    let ghost pw = planned_all(writes@);
    let ghost bv = views(befores@);
    let mut out: Vec<char> = Vec::new();
    let mut i: usize = 0;
    proof {
        assert(pw.take(0) =~= Seq::<PlannedWrite>::empty());
    }
    while i < writes.len()
        invariant
            i <= writes@.len(),
            befores@.len() == writes@.len(),
            pw == planned_all(writes@),
            bv == views(befores@),
            out@ == plan_diff(pw.take(i as int), bv.take(i as int)),
        decreases writes@.len() - i,
    {
        proof {
            assert(pw.take(i + 1).drop_last() =~= pw.take(i as int));
            assert(bv.take(i + 1).drop_last() =~= bv.take(i as int));
            assert(bv.take(i + 1).last() == befores@[i as int]@);
            assert(pw.take(i + 1).last() == planned(writes@[i as int]));
        }
        let ghost start = out@;
        let w = &writes[i];
        append_chars(&mut out, chars_of("--- ").as_slice());
        if w.before_sha256.is_some() {
            append_chars(&mut out, chars_of(w.path.as_str()).as_slice());
        } else {
            append_chars(&mut out, chars_of("/dev/null").as_slice());
        }
        append_chars(&mut out, chars_of("\n+++ ").as_slice());
        if w.delete {
            append_chars(&mut out, chars_of("/dev/null").as_slice());
        } else {
            append_chars(&mut out, chars_of(w.path.as_str()).as_slice());
        }
        append_chars(&mut out, chars_of("\n@@ complete file @@\n").as_slice());
        push_marked(&mut out, befores[i].as_str(), '-');
        if !w.delete {
            push_marked(&mut out, w.content.as_str(), '+');
        }
        proof {
            assert(out@ =~= start + section(planned(writes@[i as int]), befores@[i as int]@));
        }
        i = i + 1;
    }
    proof {
        assert(pw.take(writes@.len() as int) =~= pw);
        assert(bv.take(writes@.len() as int) =~= bv);
    }
    string_of(out.as_slice())
}

/// An index entry of the research partition.
pub open spec fn in_research(e: IndexEntry) -> bool {
    starts_with(e.path@, "research/"@)
}

/// The entries of one index partition, in order: the research entries, or
/// the articles (every other entry).
pub open spec fn partition(es: Seq<IndexEntry>, research: bool) -> Seq<IndexEntry>
    decreases es.len(),
{
    if es.len() == 0 {
        Seq::empty()
    } else if in_research(es.last()) == research {
        partition(es.drop_last(), research).push(es.last())
    } else {
        partition(es.drop_last(), research)
    }
}

fn copy_entry(e: &IndexEntry) -> (out: IndexEntry)
    ensures
        out == *e,
{
    let description = match &e.description {
        Some(d) => Some(d.clone()),
        None => None,
    };
    IndexEntry { path: e.path.clone(), title: e.title.clone(), description }
}

/// Split the managed pages' index entries into the research partition and
/// the articles, each in the order given.
pub fn partition_index(entries: &Vec<IndexEntry>) -> (r: (Vec<IndexEntry>, Vec<IndexEntry>))
    ensures
        r.0@ == partition(entries@, true),
        r.1@ == partition(entries@, false),
{
    let mut research: Vec<IndexEntry> = Vec::new();
    let mut articles: Vec<IndexEntry> = Vec::new();
    let mut i: usize = 0;
    proof {
        assert(entries@.take(0) =~= Seq::<IndexEntry>::empty());
    }
    while i < entries.len()
        invariant
            i <= entries@.len(),
            research@ == partition(entries@.take(i as int), true),
            articles@ == partition(entries@.take(i as int), false),
        decreases entries@.len() - i,
    {
        proof {
            assert(entries@.take(i + 1).drop_last() =~= entries@.take(i as int));
            assert(entries@.take(i + 1).last() == entries@[i as int]);
        }
        let e = copy_entry(&entries[i]);
        if starts_with_exec(chars_of(e.path.as_str()).as_slice(), chars_of("research/").as_slice()) {
            research.push(e);
        } else {
            articles.push(e);
        }
        i = i + 1;
    }
    proof {
        assert(entries@.take(entries@.len() as int) =~= entries@);
    }
    (research, articles)
}

} // verus!
