//! Reviewing admitted sources against their records: what was added,
//! modified or deleted, and what may have moved.
use vstd::prelude::*;
use crate::extract::{extract_bytes, ExtractedDocument, MediaType};
use crate::error::{config_message, ErrorCode, KbError};
use crate::resource_read::{first_at, lemma_first_at};
use crate::search::{count_matches, match_count};
use crate::text::{append_chars, chars_of, find_from, occurs_at, slice_vec, string_of, views};

verus! {

/// What a capture operation does.
#[derive(Debug, Clone, Copy, PartialEq, Eq, Structural)]
pub enum CaptureKind {
    CaptureSources,
}

/// How a source changed since its record.
#[derive(Debug, Clone, Copy, PartialEq, Eq, Structural)]
pub enum ChangeKind {
    Added,
    Modified,
    Deleted,
}

/// A source found now: its id, digest, media type and bytes.
pub struct CurrentSource {
    pub id: String,
    pub sha256: String,
    pub media_type: MediaType,
    pub bytes: Vec<u8>,
}

/// A recorded source: its id, digest and whether it was present.
pub struct RecordedSource {
    pub id: String,
    pub sha256: String,
    pub present: bool,
}

/// One change of a review.
#[derive(Debug)]
pub struct SourceChange {
    pub kind: ChangeKind,
    pub source: String,
    pub previous_sha256: Option<String>,
    pub current_sha256: Option<String>,
    pub possible_move_from: Vec<String>,
    pub extraction: Option<ExtractedDocument>,
}

/// A change as values, without its extraction (see `extraction_fits`).
pub struct ChangeView {
    pub kind: ChangeKind,
    pub source: Seq<char>,
    pub previous_sha256: Option<Seq<char>>,
    pub current_sha256: Option<Seq<char>>,
    pub possible_move_from: Seq<Seq<char>>,
}

pub open spec fn change_view(c: SourceChange) -> ChangeView {
    ChangeView {
        kind: c.kind,
        source: c.source@,
        previous_sha256: crate::extract::opt_view(c.previous_sha256),
        current_sha256: crate::extract::opt_view(c.current_sha256),
        possible_move_from: views(c.possible_move_from@),
    }
}

pub open spec fn change_views(v: Seq<SourceChange>) -> Seq<ChangeView> {
    v.map_values(|c: SourceChange| change_view(c))
}

/// The record of a source id: its digest and presence.
pub open spec fn record_of(previous: Seq<RecordedSource>, id: Seq<char>) -> Option<(Seq<char>, bool)>
    decreases previous.len(),
{
    if previous.len() == 0 {
        None
    } else if previous[0].id@ == id {
        Some((previous[0].sha256@, previous[0].present))
    } else {
        record_of(previous.drop_first(), id)
    }
}

/// The deleted sources whose digest equals `sha`, in order.
pub open spec fn moved_from(deleted: Seq<RecordedSource>, sha: Seq<char>) -> Seq<Seq<char>>
    decreases deleted.len(),
{
    if deleted.len() == 0 {
        Seq::empty()
    } else {
        let rest = moved_from(deleted.drop_last(), sha);
        if deleted.last().sha256@ == sha { rest.push(deleted.last().id@) } else { rest }
    }
}

/// A current source is unchanged when its record is present with its digest.
pub open spec fn unchanged(previous: Seq<RecordedSource>, s: CurrentSource) -> bool {
    record_of(previous, s.id@) matches Some((sha, present)) && present && sha == s.sha256@
}

/// The change of a current source that is not unchanged.
pub open spec fn current_change(previous: Seq<RecordedSource>, deleted: Seq<RecordedSource>, s: CurrentSource) -> ChangeView {
    ChangeView {
        kind: if record_of(previous, s.id@) is Some { ChangeKind::Modified } else { ChangeKind::Added },
        source: s.id@,
        previous_sha256: match record_of(previous, s.id@) {
            Some((sha, _)) => Some(sha),
            None => None,
        },
        current_sha256: Some(s.sha256@),
        possible_move_from: moved_from(deleted, s.sha256@),
    }
}

/// The changes of the current sources and how many are unchanged.
pub open spec fn review_current(current: Seq<CurrentSource>, previous: Seq<RecordedSource>, deleted: Seq<RecordedSource>) -> (Seq<ChangeView>, nat)
    decreases current.len(),
{
    if current.len() == 0 {
        (Seq::empty(), 0)
    } else {
        let (changes, same) = review_current(current.drop_last(), previous, deleted);
        if unchanged(previous, current.last()) {
            (changes, same + 1)
        } else {
            (changes.push(current_change(previous, deleted, current.last())), same)
        }
    }
}

pub open spec fn deleted_change(r: RecordedSource) -> ChangeView {
    ChangeView {
        kind: ChangeKind::Deleted,
        source: r.id@,
        previous_sha256: Some(r.sha256@),
        current_sha256: None,
        possible_move_from: Seq::empty(),
    }
}

/// A review: the changes of the current sources in their order, then one
/// deletion per deleted source; and the count of unchanged sources.
pub open spec fn review(current: Seq<CurrentSource>, previous: Seq<RecordedSource>, deleted: Seq<RecordedSource>) -> (Seq<ChangeView>, nat) {
    let (changes, same) = review_current(current, previous, deleted);
    (changes + deleted.map_values(|r: RecordedSource| deleted_change(r)), same)
}

fn record_lookup(previous: &Vec<RecordedSource>, id: &String) -> (r: Option<(String, bool)>)
    ensures
        match r {
            Some((sha, present)) => record_of(previous@, id@) == Some((sha@, present)),
            None => record_of(previous@, id@) is None,
        },
{
    let mut i: usize = 0;
    proof {
        assert(previous@.skip(0) =~= previous@);
    }
    while i < previous.len()
        invariant
            i <= previous@.len(),
            record_of(previous@, id@) == record_of(previous@.skip(i as int), id@),
        decreases previous@.len() - i,
    {
        proof {
            assert(previous@.skip(i as int)[0] == previous@[i as int]);
            assert(previous@.skip(i as int).drop_first() =~= previous@.skip(i + 1));
        }
        if previous[i].id == *id {
            return Some((previous[i].sha256.clone(), previous[i].present));
        }
        i = i + 1;
    }
    None
}

fn moves(deleted: &Vec<RecordedSource>, sha: &String) -> (out: Vec<String>)
    ensures
        views(out@) == moved_from(deleted@, sha@),
{
    let mut out: Vec<String> = Vec::new();
    let mut i: usize = 0;
    proof {
        assert(deleted@.take(0) =~= Seq::<RecordedSource>::empty());
        assert(views(out@) =~= Seq::<Seq<char>>::empty());
    }
    while i < deleted.len()
        invariant
            i <= deleted@.len(),
            views(out@) == moved_from(deleted@.take(i as int), sha@),
        decreases deleted@.len() - i,
    {
        proof {
            assert(deleted@.take(i + 1).drop_last() =~= deleted@.take(i as int));
            assert(deleted@.take(i + 1).last() == deleted@[i as int]);
        }
        if deleted[i].sha256 == *sha {
            let id = deleted[i].id.clone();
            let ghost before = out@;
            out.push(id);
            proof {
                assert(views(out@) =~= views(before).push(id@));
            }
        }
        i = i + 1;
    }
    proof {
        assert(deleted@.take(deleted@.len() as int) =~= deleted@);
    }
    out
}

/// Where a change goes among changes in source order: after every change
/// whose source is not after its own.
pub open spec fn change_slot(s: Seq<ChangeView>, x: ChangeView) -> int
    decreases s.len(),
{
    if s.len() == 0 {
        0
    } else if crate::sync::chars_lt(x.source, s[0].source) {
        0
    } else {
        1 + change_slot(s.drop_first(), x)
    }
}

/// A stable insertion sort of changes by source.
pub open spec fn by_source(s: Seq<ChangeView>) -> Seq<ChangeView>
    decreases s.len(),
{
    if s.len() == 0 {
        s
    } else {
        let r = by_source(s.drop_last());
        r.insert(change_slot(r, s.last()), s.last())
    }
}

pub(crate) proof fn lemma_chars_lt_total(a: Seq<char>, b: Seq<char>)
    ensures
        crate::sync::chars_lt(a, b) || crate::sync::chars_lt(b, a) || a == b,
    decreases a.len(),
{
    if a.len() > 0 && b.len() > 0 && a[0] == b[0] {
        lemma_chars_lt_total(a.drop_first(), b.drop_first());
        if a.drop_first() == b.drop_first() {
            assert(a =~= seq![a[0]] + a.drop_first());
            assert(b =~= seq![b[0]] + b.drop_first());
        }
    } else if a.len() == 0 && b.len() == 0 {
        assert(a =~= b);
    }
}

proof fn lemma_change_slot(r: Seq<ChangeView>, x: ChangeView)
    ensures
        0 <= change_slot(r, x) <= r.len(),
        forall|k: int| 0 <= k < change_slot(r, x) ==> !crate::sync::chars_lt(x.source, (#[trigger] r[k]).source),
        change_slot(r, x) < r.len() ==> crate::sync::chars_lt(x.source, r[change_slot(r, x)].source),
    decreases r.len(),
{
    if r.len() > 0 && !crate::sync::chars_lt(x.source, r[0].source) {
        lemma_change_slot(r.drop_first(), x);
        assert forall|k: int| 0 <= k < change_slot(r, x) implies !crate::sync::chars_lt(x.source, (#[trigger] r[k]).source) by {
            if k > 0 {
                assert(r[k] == r.drop_first()[k - 1]);
            }
        }
    }
}

/// Sorting by source keeps the changes and puts them in source order.
proof fn lemma_by_source(s: Seq<ChangeView>)
    ensures
        by_source(s).len() == s.len(),
        forall|i: int, j: int| 0 <= i < j < by_source(s).len()
            ==> !crate::sync::chars_lt(#[trigger] by_source(s)[j].source, #[trigger] by_source(s)[i].source),
    decreases s.len(),
{
    if s.len() > 0 {
        let r = by_source(s.drop_last());
        let x = s.last();
        lemma_by_source(s.drop_last());
        lemma_change_slot(r, x);
        let slot = change_slot(r, x);
        let out = r.insert(slot, x);
        assert(by_source(s) == out);
        assert forall|i: int, j: int| 0 <= i < j < out.len()
            implies !crate::sync::chars_lt(#[trigger] out[j].source, #[trigger] out[i].source) by {
            if j < slot {
                assert(out[i] == r[i] && out[j] == r[j]);
            } else if j == slot {
                assert(out[i] == r[i]);
                assert(!crate::sync::chars_lt(x.source, r[i].source));
            } else if i == slot {
                assert(out[j] == r[j - 1]);
                assert(crate::sync::chars_lt(x.source, r[slot].source));
                if j - 1 > slot {
                    assert(!crate::sync::chars_lt(r[j - 1].source, r[slot].source));
                    lemma_chars_lt_total(r[j - 1].source, r[slot].source);
                    if crate::sync::chars_lt(r[slot].source, r[j - 1].source) {
                        crate::sync::lemma_chars_lt_transitive(x.source, r[slot].source, r[j - 1].source);
                    }
                }
                if crate::sync::chars_lt(out[j].source, x.source) {
                    if j - 1 > slot {
                        if crate::sync::chars_lt(r[slot].source, r[j - 1].source) {
                            crate::sync::lemma_chars_lt_transitive(x.source, r[slot].source, r[j - 1].source);
                        }
                        crate::sync::lemma_chars_lt_asymmetric(x.source, r[j - 1].source);
                    } else {
                        crate::sync::lemma_chars_lt_asymmetric(x.source, r[slot].source);
                    }
                }
            } else if i < slot {
                assert(out[i] == r[i] && out[j] == r[j - 1]);
            } else {
                assert(out[i] == r[i - 1] && out[j] == r[j - 1]);
            }
        }
    }
}

/// The changes of a review come in source order.
pub proof fn review_changes_are_in_source_order(current: Seq<CurrentSource>, previous: Seq<RecordedSource>, deleted: Seq<RecordedSource>)
    ensures
        forall|i: int, j: int| 0 <= i < j < by_source(review(current, previous, deleted).0).len() ==> !crate::sync::chars_lt(
            #[trigger] by_source(review(current, previous, deleted).0)[j].source,
            #[trigger] by_source(review(current, previous, deleted).0)[i].source,
        ),
{
    lemma_by_source(review(current, previous, deleted).0);
}

fn change_slot_exec(out: &Vec<SourceChange>, x: &SourceChange) -> (k: usize)
    ensures
        k == change_slot(change_views(out@), change_view(*x)),
{
    let ghost v = change_views(out@);
    let xs = chars_of(x.source.as_str());
    let mut k: usize = 0;
    proof {
        assert(v.skip(0) =~= v);
    }
    while k < out.len()
        invariant
            k <= out@.len(),
            v == change_views(out@),
            xs@ == x.source@,
            change_slot(v, change_view(*x)) == k + change_slot(v.skip(k as int), change_view(*x)),
        decreases out@.len() - k,
    {
        proof {
            assert(v.skip(k as int)[0] == v[k as int]);
            assert(v.skip(k as int).drop_first() =~= v.skip(k + 1));
        }
        if crate::search::chars_less(xs.as_slice(), chars_of(out[k].source.as_str()).as_slice()) {
            return k;
        }
        k = k + 1;
    }
    k
}

/// Sort changes by source, keeping the order of changes of equal source.
fn sort_by_source(changes: Vec<SourceChange>, current: Ghost<Seq<CurrentSource>>) -> (out: Vec<SourceChange>)
    requires
        forall|k: int| 0 <= k < changes@.len() ==> extraction_fits(current@, #[trigger] changes@[k]),
    ensures
        change_views(out@) == by_source(change_views(changes@)),
        forall|k: int| 0 <= k < out@.len() ==> extraction_fits(current@, #[trigger] out@[k]),
{
    let ghost cv = change_views(changes@);
    let ghost input = changes@;
    let mut rest = changes;
    let mut out: Vec<SourceChange> = Vec::new();
    let mut i: usize = 0;
    let n = rest.len();
    proof {
        assert(cv.take(0) =~= Seq::<ChangeView>::empty());
        assert(change_views(out@) =~= Seq::<ChangeView>::empty());
    }
    while rest.len() > 0
        invariant
            i + rest@.len() == n,
            n == input.len(),
            cv == change_views(input),
            forall|k: int| 0 <= k < rest@.len() ==> rest@[k] == input[i + k],
            forall|k: int| 0 <= k < input.len() ==> extraction_fits(current@, #[trigger] input[k]),
            change_views(out@) == by_source(cv.take(i as int)),
            forall|k: int| 0 <= k < out@.len() ==> extraction_fits(current@, #[trigger] out@[k]),
        decreases rest@.len(),
    {
        let ghost old_rest = rest@;
        let x = rest.remove(0);
        proof {
            assert(x == input[i as int]);
            assert forall|k: int| 0 <= k < rest@.len() implies rest@[k] == input[i + 1 + k] by {
                assert(rest@[k] == old_rest[k + 1]);
            }
        }
        let slot = change_slot_exec(&out, &x);
        let ghost before = out@;
        proof {
            lemma_change_slot(change_views(before), change_view(x));
        }
        out.insert(slot, x);
        proof {
            assert(cv.take(i + 1).drop_last() =~= cv.take(i as int));
            assert(cv.take(i + 1).last() == change_view(x));
            assert(change_views(out@) =~= change_views(before).insert(slot as int, change_view(x)));
            assert forall|k: int| 0 <= k < out@.len() implies extraction_fits(current@, #[trigger] out@[k]) by {
                if k < slot {
                    assert(out@[k] == before[k]);
                } else if k > slot {
                    assert(out@[k] == before[k - 1]);
                }
            }
        }
        i = i + 1;
    }
    proof {
        assert(cv.take(n as int) =~= cv);
    }
    out
}

/// A change carries an extraction exactly when its source is current, and
/// then it is the extraction of that source's bytes.
pub open spec fn extraction_fits(current: Seq<CurrentSource>, c: SourceChange) -> bool {
    &&& (c.extraction is Some <==> c.kind != ChangeKind::Deleted)
    &&& c.extraction matches Some(d) ==> exists|i: int|
        0 <= i < current.len() && (#[trigger] current[i]).id@ == c.source@
            && crate::extract::extraction_agrees(current[i].media_type, current[i].bytes@, crate::extract::document_view(d))
}

/// Review the current sources against their records and the deleted ones
/// (see `review`), the changes sorted by source (see `by_source`); each
/// changed current source carries the extraction of its bytes (see
/// `extraction_fits`).
pub fn review_changes(
    current: &Vec<CurrentSource>,
    previous: &Vec<RecordedSource>,
    deleted: &Vec<RecordedSource>,
) -> (r: (Vec<SourceChange>, usize))
    requires
        forall|i: int| 0 <= i < current@.len() ==> (#[trigger] current@[i]).bytes@.len() < usize::MAX,
    ensures
        change_views(r.0@) == by_source(review(current@, previous@, deleted@).0),
        r.1 as nat == review(current@, previous@, deleted@).1,
        forall|k: int| 0 <= k < r.0@.len() ==> extraction_fits(current@, #[trigger] r.0@[k]),
{
    let mut changes: Vec<SourceChange> = Vec::new();
    let mut same: usize = 0;
    let mut i: usize = 0;
    proof {
        assert(current@.take(0) =~= Seq::<CurrentSource>::empty());
        assert(change_views(changes@) =~= Seq::<ChangeView>::empty());
    }
    while i < current.len()
        invariant
            i <= current@.len(),
            same <= i,
            forall|k: int| 0 <= k < current@.len() ==> (#[trigger] current@[k]).bytes@.len() < usize::MAX,
            (change_views(changes@), same as nat) == review_current(current@.take(i as int), previous@, deleted@),
            forall|k: int| 0 <= k < changes@.len() ==> extraction_fits(current@, #[trigger] changes@[k]),
        decreases current@.len() - i,
    {
        proof {
            assert(current@.take(i + 1).drop_last() =~= current@.take(i as int));
            assert(current@.take(i + 1).last() == current@[i as int]);
        }
        let s = &current[i];
        let old = record_lookup(previous, &s.id);
        let same_now = match &old {
            Some((sha, present)) => *present && *sha == s.sha256,
            None => false,
        };
        if same_now {
            same = same + 1;
        } else {
            let extraction = extract_bytes(s.media_type, s.bytes.clone());
            let c = SourceChange {
                kind: if old.is_some() { ChangeKind::Modified } else { ChangeKind::Added },
                source: s.id.clone(),
                previous_sha256: match old {
                    Some((sha, _)) => Some(sha),
                    None => None,
                },
                current_sha256: Some(s.sha256.clone()),
                possible_move_from: moves(deleted, &s.sha256),
                extraction: Some(extraction),
            };
            proof {
                assert(current@[i as int].id@ == c.source@);
                assert(extraction_fits(current@, c));
            }
            let ghost before = changes@;
            changes.push(c);
            proof {
                assert(change_views(changes@) =~= change_views(before).push(change_view(c)));
                assert forall|k: int| 0 <= k < changes@.len() implies extraction_fits(current@, #[trigger] changes@[k]) by {
                    if k < before.len() {
                        assert(changes@[k] == before[k]);
                    }
                }
            }
        }
        i = i + 1;
    }
    proof {
        assert(current@.take(current@.len() as int) =~= current@);
    }
    let ghost mid = change_views(changes@);
    let mut j: usize = 0;
    while j < deleted.len()
        invariant
            j <= deleted@.len(),
            change_views(changes@) == mid + deleted@.take(j as int).map_values(|r: RecordedSource| deleted_change(r)),
            forall|k: int| 0 <= k < changes@.len() ==> extraction_fits(current@, #[trigger] changes@[k]),
        decreases deleted@.len() - j,
    {
        let d = &deleted[j];
        let c = SourceChange {
            kind: ChangeKind::Deleted,
            source: d.id.clone(),
            previous_sha256: Some(d.sha256.clone()),
            current_sha256: None,
            possible_move_from: Vec::new(),
            extraction: None,
        };
        let ghost before = changes@;
        changes.push(c);
        proof {
            assert forall|k: int| 0 <= k < changes@.len() implies extraction_fits(current@, #[trigger] changes@[k]) by {
                if k < before.len() {
                    assert(changes@[k] == before[k]);
                }
            }
            assert(views(c.possible_move_from@) =~= Seq::<Seq<char>>::empty());
            assert(change_views(changes@) =~= change_views(before).push(change_view(c)));
            assert(deleted@.take(j + 1).map_values(|r: RecordedSource| deleted_change(r))
                =~= deleted@.take(j as int).map_values(|r: RecordedSource| deleted_change(r)).push(deleted_change(deleted@[j as int])));
        }
        j = j + 1;
    }
    proof {
        assert(deleted@.take(deleted@.len() as int) =~= deleted@);
    }
    let sorted = sort_by_source(changes, Ghost(current@));
    (sorted, same)
}

/// Every current source is either unchanged or has one change, and every
/// deleted source has one: changes and unchanged sources together number the
/// current and deleted sources.
pub proof fn review_accounts_for_every_source(current: Seq<CurrentSource>, previous: Seq<RecordedSource>, deleted: Seq<RecordedSource>)
    ensures
        review(current, previous, deleted).0.len() + review(current, previous, deleted).1 == current.len() + deleted.len(),
    decreases current.len(),
{
    if current.len() > 0 {
        review_accounts_for_every_source(current.drop_last(), previous, deleted);
    }
}

/// The start marker of a managed region.
pub open spec fn region_start() -> Seq<char> {
    "<!-- kb:managed:start -->"@
}

/// The end marker of a managed region.
pub open spec fn region_end() -> Seq<char> {
    "<!-- kb:managed:end -->"@
}

proof fn lemma_absent_count_zero(s: Seq<char>, p: Seq<char>)
    requires
        p.len() > 0,
        forall|k: int| !occurs_at(s, p, k),
    ensures
        match_count(s, p) == 0,
    decreases s.len(),
{
    if s.len() >= p.len() {
        assert(!occurs_at(s, p, 0));
        assert forall|k: int| !occurs_at(s.drop_first(), p, k) by {
            if occurs_at(s.drop_first(), p, k) {
                assert(s.drop_first().subrange(k, k + p.len()) =~= s.subrange(k + 1, k + 1 + p.len()));
                assert(occurs_at(s, p, k + 1));
            }
        }
        lemma_absent_count_zero(s.drop_first(), p);
    }
}

/// Where `p` first occurs in `s`, or -1 (see `first_at`).
#[verifier::opaque]
pub open spec fn marker_index(s: Seq<char>, p: Seq<char>) -> int {
    first_at(s, p)
}

fn first_occurrence(s: &[char], p: &[char]) -> (r: Option<usize>)
    requires
        p@.len() > 0,
    ensures
        match r {
            Some(i) => marker_index(s@, p@) == i && i + p@.len() <= s@.len(),
            None => match_count(s@, p@) == 0,
        },
{
    reveal(marker_index);
    match find_from(s, p, 0) {
        Some(i) => {
            proof {
                lemma_first_at(s@, p@, i as int);
            }
            Some(i)
        },
        None => {
            proof {
                assert forall|k: int| !occurs_at(s@, p@, k) by {
                    if k < 0 {
                    }
                }
                lemma_absent_count_zero(s@, p@);
            }
            None
        },
    }
}

fn spliced(t: &[char], line: &[char], at: usize) -> (out: Vec<char>)
    requires
        at <= t@.len(),
    ensures
        out@ == t@.take(at as int) + line@ + t@.skip(at as int),
{
    let mut out = slice_vec(t, 0, at);
    append_chars(&mut out, line);
    append_chars(&mut out, slice_vec(t, at, t.len()).as_slice());
    proof {
        assert(out@ =~= t@.take(at as int) + line@ + t@.skip(at as int));
    }
    out
}

/// Where a line goes in a text with one managed region: just before its
/// end marker; none when a marker is missing or repeated, or they are
/// reversed (the flag tells which).
fn region_insert(t: &[char], line: &[char], start: &[char], end: &[char]) -> (r: Result<Vec<char>, bool>)
    requires
        start@.len() > 0,
        end@.len() > 0,
    ensures
        match_count(t@, start@) != 1 || match_count(t@, end@) != 1 ==> (r matches Err(rev) && !rev),
        match_count(t@, start@) == 1 && match_count(t@, end@) == 1 && marker_index(t@, end@) < marker_index(t@, start@) ==> (r matches Err(rev) && rev),
        match_count(t@, start@) == 1 && match_count(t@, end@) == 1 && marker_index(t@, start@) <= marker_index(t@, end@) ==> (r matches Ok(o)
            && o@ == t@.take(marker_index(t@, end@)) + line@ + t@.skip(marker_index(t@, end@))),
{
    if count_matches(t, start) != 1 || count_matches(t, end) != 1 {
        return Err(false);
    }
    let begin = match first_occurrence(t, start) {
        Some(i) => i,
        None => {
            return Err(false);
        },
    };
    let stop = match first_occurrence(t, end) {
        Some(i) => i,
        None => {
            return Err(false);
        },
    };
    if stop < begin {
        return Err(true);
    }
    Ok(spliced(t, line, stop))
}

/// Add a line to the end of the log's managed region: the log must have
/// exactly one start and one end marker, in that order.
pub fn append_log(text: &str, line: &str) -> (r: Result<String, KbError>)
    ensures
        match_count(text@, region_start()) != 1 || match_count(text@, region_end()) != 1 ==> (r matches Err(e)
            && e.code == ErrorCode::InvalidConfig && e.message@ == config_message(
            "Wiki/log.md"@,
            "expected one managed region"@,
        )),
        match_count(text@, region_start()) == 1 && match_count(text@, region_end()) == 1 && marker_index(
            text@,
            region_end(),
        ) < marker_index(text@, region_start()) ==> (r matches Err(e) && e.code == ErrorCode::InvalidConfig
            && e.message@ == config_message("Wiki/log.md"@, "reversed managed markers"@)),
        match_count(text@, region_start()) == 1 && match_count(text@, region_end()) == 1 && marker_index(
            text@,
            region_start(),
        ) <= marker_index(text@, region_end()) ==> (r matches Ok(t) && t@ == text@.take(marker_index(text@, region_end()))
            + line@ + text@.skip(marker_index(text@, region_end()))),
{
    let start = chars_of("<!-- kb:managed:start -->");
    let end = chars_of("<!-- kb:managed:end -->");
    assert(start@.len() > 0) by {
        reveal_strlit("<!-- kb:managed:start -->");
    }
    assert(end@.len() > 0) by {
        reveal_strlit("<!-- kb:managed:end -->");
    }
    match region_insert(chars_of(text).as_slice(), chars_of(line).as_slice(), start.as_slice(), end.as_slice()) {
        Ok(o) => Ok(string_of(o.as_slice())),
        Err(reversed) => if reversed {
            Err(KbError::invalid_config("Wiki/log.md", "reversed managed markers"))
        } else {
            Err(KbError::invalid_config("Wiki/log.md", "expected one managed region"))
        },
    }
}

/// The log line of a source capture: when, which operation, and how many
/// sources it updates and marks missing.
pub open spec fn capture_line(at: Seq<char>, id: Seq<char>, updated: nat, missing: nat) -> Seq<char> {
    "- "@ + at + " \u{b7} Source capture "@ + id + ": "@ + crate::text::decimal(updated) + " updated, "@
        + crate::text::decimal(missing) + " missing.\n"@
}

/// How many of the flags are set.
pub open spec fn count_set(flags: Seq<bool>) -> nat
    decreases flags.len(),
{
    if flags.len() == 0 {
        0
    } else {
        count_set(flags.drop_last()) + if flags.last() { 1nat } else { 0nat }
    }
}

/// The log line of a capture whose inputs are present or missing as
/// `present` says (see `capture_line`).
pub fn capture_log_line(at: &str, operation_id: &str, present: &Vec<bool>) -> (out: String)
    ensures
        out@ == capture_line(at@, operation_id@, count_set(present@), (present@.len() - count_set(present@)) as nat),
{
    let mut updated: u64 = 0;
    let mut i: usize = 0;
    proof {
        assert(present@.take(0) =~= Seq::<bool>::empty());
    }
    while i < present.len()
        invariant
            i <= present@.len(),
            updated == count_set(present@.take(i as int)),
            updated <= i,
        decreases present@.len() - i,
    {
        proof {
            assert(present@.take(i + 1).drop_last() =~= present@.take(i as int));
        }
        if present[i] {
            updated = updated + 1;
        }
        i = i + 1;
    }
    proof {
        assert(present@.take(present@.len() as int) =~= present@);
    }
    let missing = present.len() as u64 - updated;
    let mut m = chars_of("- ");
    append_chars(&mut m, chars_of(at).as_slice());
    append_chars(&mut m, chars_of(" \u{b7} Source capture ").as_slice());
    append_chars(&mut m, chars_of(operation_id).as_slice());
    append_chars(&mut m, chars_of(": ").as_slice());
    append_chars(&mut m, crate::text::decimal_chars(updated).as_slice());
    append_chars(&mut m, chars_of(" updated, ").as_slice());
    append_chars(&mut m, crate::text::decimal_chars(missing).as_slice());
    append_chars(&mut m, chars_of(" missing.\n").as_slice());
    string_of(m.as_slice())
}

/// A path that a skipped file or directory covers: the skipped path itself
/// or anything below it.
pub open spec fn covered(relative: Seq<char>, skipped: Seq<Seq<char>>) -> bool {
    exists|j: int|
        0 <= j < skipped.len() && (relative == #[trigger] skipped[j] || crate::text::starts_with(
            relative,
            skipped[j] + seq!['/'],
        ))
}

/// Whether a skipped file or directory covers `relative` (see `covered`):
/// such a source is not deleted.
pub fn covered_by_skipped(relative: &str, skipped: &Vec<String>) -> (b: bool)
    ensures
        b == covered(relative@, views(skipped@)),
{
    let ghost sv = views(skipped@);
    let r = chars_of(relative);
    let mut j: usize = 0;
    while j < skipped.len()
        invariant
            j <= skipped@.len(),
            sv == views(skipped@),
            r@ == relative@,
            forall|k: int|
                0 <= k < j ==> !(relative@ == #[trigger] sv[k] || crate::text::starts_with(relative@, sv[k] + seq!['/'])),
        decreases skipped@.len() - j,
    {
        let mut dir = chars_of(skipped[j].as_str());
        let same = crate::text::equal_chars(r.as_slice(), dir.as_slice());
        dir.push('/');
        proof {
            assert(dir@ =~= skipped@[j as int]@ + seq!['/']);
        }
        let below = crate::text::starts_with_exec(r.as_slice(), dir.as_slice());
        proof {
            assert(sv[j as int] == skipped@[j as int]@);
        }
        if same || below {
            return true;
        }
        j = j + 1;
    }
    false
}

/// The versions a captured source's record lists: those recorded before,
/// then the previously recorded version and the current one, each added
/// only if not yet listed.
pub open spec fn merged_versions(previous: Option<(Seq<Seq<char>>, Seq<char>)>, current: Seq<char>) -> Seq<Seq<char>> {
    let base = match previous {
        Some((versions, recorded)) => if versions.contains(recorded) {
            versions
        } else {
            versions.push(recorded)
        },
        None => Seq::empty(),
    };
    if base.contains(current) {
        base
    } else {
        base.push(current)
    }
}

fn listed_text(v: &Vec<String>, s: &str) -> (b: bool)
    ensures
        b == views(v@).contains(s@),
{
    let ghost vv = views(v@);
    let mut j: usize = 0;
    while j < v.len()
        invariant
            j <= v@.len(),
            vv == views(v@),
            forall|k: int| 0 <= k < j ==> vv[k] != s@,
        decreases v@.len() - j,
    {
        if crate::text::equal_chars(chars_of(v[j].as_str()).as_slice(), chars_of(s).as_slice()) {
            proof {
                assert(vv[j as int] == s@);
            }
            return true;
        }
        j = j + 1;
    }
    false
}

/// The versions of a captured source (see `merged_versions`), given the
/// versions and the version of its previous record, if it had one.
pub fn captured_versions(previous: Option<(Vec<String>, String)>, current: &str) -> (out: Vec<String>)
    ensures
        views(out@) == merged_versions(
            match previous {
                Some((vs, r)) => Some((views(vs@), r@)),
                None => None,
            },
            current@,
        ),
{
    let mut out: Vec<String> = match previous {
        Some((versions, recorded)) => {
            let mut v = versions;
            if !listed_text(&v, recorded.as_str()) {
                let ghost before = views(v@);
                v.push(recorded);
                proof {
                    assert(views(v@) =~= before.push(recorded@));
                }
            }
            v
        },
        None => {
            let v: Vec<String> = Vec::new();
            proof {
                assert(views(v@) =~= Seq::<Seq<char>>::empty());
            }
            v
        },
    };
    if !listed_text(&out, current) {
        let ghost before = views(out@);
        out.push(current.to_owned());
        proof {
            assert(views(out@) =~= before.push(current@));
        }
    }
    out
}

/// The title of a captured source: the last segment of its path.
pub fn source_title(relative_path: &str) -> (t: String)
    ensures
        t@ == crate::text::after_last(relative_path@, '/'),
{
    string_of(crate::text::after_last_exec(chars_of(relative_path).as_slice(), '/').as_slice())
}

} // verus!
