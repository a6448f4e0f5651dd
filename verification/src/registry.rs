//! The machine-local registry of Vaults: registering, moving and dropping
//! a Vault's entry, and what makes a registry valid.
use vstd::prelude::*;
use crate::error::{config_message, ErrorCode, KbError};
use crate::search::chars_less;
use crate::sync::chars_lt;
use crate::text::{append_chars, chars_of, decimal, decimal_chars, equal_chars, split_char, split_on, string_of, vviews};

verus! {

/// One registered Vault: its identity (the canonical hyphenated text of its
/// UUID) and the absolute path it lives at.
#[derive(Debug, Clone)]
pub struct VaultRecord {
    pub vault_id: String,
    pub path: String,
}

/// A record as values.
pub struct RecordView {
    pub id: Seq<char>,
    pub path: Seq<char>,
}

pub open spec fn record_view(r: VaultRecord) -> RecordView {
    RecordView { id: r.vault_id@, path: r.path@ }
}

pub open spec fn record_views(v: Seq<VaultRecord>) -> Seq<RecordView> {
    v.map_values(|r: VaultRecord| record_view(r))
}

/// A path is absolute when it starts at the root.
pub open spec fn absolute(p: Seq<char>) -> bool {
    p.len() > 0 && p[0] == '/'
}

/// The segments of a path that name components: empty and `.` segments do not.
pub open spec fn named_segments(segs: Seq<Seq<char>>) -> Seq<Seq<char>>
    decreases segs.len(),
{
    if segs.len() == 0 {
        Seq::empty()
    } else {
        let r = named_segments(segs.drop_last());
        if segs.last().len() == 0 || segs.last() == "."@ {
            r
        } else {
            r.push(segs.last())
        }
    }
}

/// A path's components: whether it has a root, whether it starts with the
/// current directory, and its named segments. Two paths are the same path
/// when these agree.
pub open spec fn path_components(p: Seq<char>) -> (bool, bool, Seq<Seq<char>>) {
    let segs = split_on(p, '/');
    (absolute(p), !absolute(p) && segs[0] == "."@, named_segments(segs))
}

pub open spec fn same_path(a: Seq<char>, b: Seq<char>) -> bool {
    path_components(a) == path_components(b)
}

fn named_segments_exec(segs: &Vec<Vec<char>>) -> (out: Vec<Vec<char>>)
    ensures
        vviews(out@) == named_segments(vviews(segs@)),
{
    let dot = chars_of(".");
    let mut out: Vec<Vec<char>> = Vec::new();
    let mut i: usize = 0;
    proof {
        assert(vviews(segs@).take(0) =~= Seq::<Seq<char>>::empty());
        assert(vviews(out@) =~= Seq::<Seq<char>>::empty());
    }
    while i < segs.len()
        invariant
            i <= segs@.len(),
            dot@ == "."@,
            vviews(out@) == named_segments(vviews(segs@).take(i as int)),
        decreases segs@.len() - i,
    {
        proof {
            assert(vviews(segs@).take(i + 1).drop_last() =~= vviews(segs@).take(i as int));
            assert(vviews(segs@).take(i + 1).last() == segs@[i as int]@);
        }
        if !(segs[i].len() == 0 || equal_chars(segs[i].as_slice(), dot.as_slice())) {
            let ghost before = out@;
            out.push(segs[i].clone());
            proof {
                assert(vviews(out@) =~= vviews(before).push(segs@[i as int]@));
            }
        }
        i = i + 1;
    }
    proof {
        assert(vviews(segs@).take(segs@.len() as int) =~= vviews(segs@));
    }
    out
}

fn segments_equal(a: &Vec<Vec<char>>, b: &Vec<Vec<char>>) -> (r: bool)
    ensures
        r == (vviews(a@) == vviews(b@)),
{
    if a.len() != b.len() {
        proof {
            assert(vviews(a@).len() != vviews(b@).len());
        }
        return false;
    }
    let mut i: usize = 0;
    while i < a.len()
        invariant
            i <= a@.len(),
            a@.len() == b@.len(),
            forall|k: int| 0 <= k < i ==> a@[k]@ == b@[k]@,
        decreases a@.len() - i,
    {
        if !equal_chars(a[i].as_slice(), b[i].as_slice()) {
            proof {
                assert(vviews(a@)[i as int] != vviews(b@)[i as int]);
            }
            return false;
        }
        i = i + 1;
    }
    proof {
        assert(vviews(a@) =~= vviews(b@));
    }
    true
}

fn path_key(p: &str) -> (r: (bool, bool, Vec<Vec<char>>))
    ensures
        (r.0, r.1, vviews(r.2@)) == path_components(p@),
{
    let c = chars_of(p);
    let segs = split_char(c.as_slice(), '/');
    let dot = chars_of(".");
    let rooted = c.len() > 0 && c[0] == '/';
    proof {
        assert(vviews(segs@).len() > 0);
        assert(vviews(segs@)[0] == segs@[0]@);
    }
    let lead = !rooted && equal_chars(segs[0].as_slice(), dot.as_slice());
    (rooted, lead, named_segments_exec(&segs))
}

/// Whether two paths are the same path (see `same_path`).
pub fn paths_equal(a: &str, b: &str) -> (r: bool)
    ensures
        r == same_path(a@, b@),
{
    let ka = path_key(a);
    let kb = path_key(b);
    let r = ka.0 == kb.0 && ka.1 == kb.1 && segments_equal(&ka.2, &kb.2);
    proof {
        if r {
            assert(path_components(a@) == path_components(b@));
        }
    }
    r
}

/// The first problem of a registry: the index of the first entry whose path
/// is not absolute (`true`) or that repeats an earlier entry's ID or path
/// (`false`).
pub open spec fn registry_problem(recs: Seq<RecordView>) -> Option<(nat, bool)>
    decreases recs.len(),
{
    if recs.len() == 0 {
        None
    } else {
        match registry_problem(recs.drop_last()) {
            Some(p) => Some(p),
            None => {
                let i = (recs.len() - 1) as nat;
                let r = recs.last();
                if !absolute(r.path) {
                    Some((i, true))
                } else if repeats_earlier(recs, i as int) {
                    Some((i, false))
                } else {
                    None
                }
            },
        }
    }
}

/// Entry `i` repeats the ID or the path of an earlier entry.
pub open spec fn repeats_earlier(recs: Seq<RecordView>, i: int) -> bool {
    exists|j: int| #![trigger recs[j]] 0 <= j < i && (recs[j].id == recs[i].id || same_path(recs[j].path, recs[i].path))
}

/// A registry is valid when it has no problem: every path absolute, no ID or
/// path twice.
pub open spec fn valid_registry(recs: Seq<RecordView>) -> bool {
    registry_problem(recs) is None
}

/// The message detail of a registry problem.
pub open spec fn problem_detail(p: (nat, bool)) -> Seq<char> {
    if p.1 {
        "vaults["@ + decimal(p.0) + "].path must be absolute"@
    } else {
        "vaults["@ + decimal(p.0) + "] duplicates an earlier ID or path"@
    }
}

fn duplicates_earlier(recs: &Vec<VaultRecord>, i: usize) -> (b: bool)
    requires
        i < recs@.len(),
    ensures
        b == repeats_earlier(record_views(recs@).take(i + 1), i as int),
{
    let ghost rv = record_views(recs@);
    let ghost tv = rv.take(i + 1);
    let mine = chars_of(recs[i].vault_id.as_str());
    let mut j: usize = 0;
    proof {
        assert(tv[i as int] == rv[i as int]);
    }
    while j < i
        invariant
            j <= i,
            i < recs@.len(),
            rv == record_views(recs@),
            tv == rv.take(i + 1),
            tv[i as int] == rv[i as int],
            mine@ == rv[i as int].id,
            forall|k: int| 0 <= k < j ==> !(#[trigger] tv[k].id == tv[i as int].id || same_path(tv[k].path, tv[i as int].path)),
        decreases i - j,
    {
        proof {
            assert(tv[j as int] == rv[j as int]);
        }
        let other = chars_of(recs[j].vault_id.as_str());
        if equal_chars(other.as_slice(), mine.as_slice()) || paths_equal(recs[j].path.as_str(), recs[i].path.as_str()) {
            proof {
                assert(tv[j as int].id == tv[i as int].id || same_path(tv[j as int].path, tv[i as int].path));
                let jj = j as int;
                assert(0 <= jj < i as int && (tv[jj].id == tv[i as int].id || same_path(tv[jj].path, tv[i as int].path)));
                assert(repeats_earlier(tv, i as int));
            }
            return true;
        }
        j = j + 1;
    }
    false
}

/// Check a registry read from `registry_path`: its first problem (see
/// `registry_problem`) is an invalid configuration of that file.
pub fn validate_registry(recs: &Vec<VaultRecord>, registry_path: &str) -> (r: Result<(), KbError>)
    ensures
        match registry_problem(record_views(recs@)) {
            None => r is Ok,
            Some(p) => r matches Err(e) && e.code == ErrorCode::InvalidConfig && e.message@ == config_message(
                registry_path@,
                problem_detail(p),
            ),
        },
{
    let ghost rv = record_views(recs@);
    let mut i: usize = 0;
    proof {
        assert(rv.take(0) =~= Seq::<RecordView>::empty());
    }
    while i < recs.len()
        invariant
            i <= recs@.len(),
            rv == record_views(recs@),
            registry_problem(rv.take(i as int)) is None,
        decreases recs@.len() - i,
    {
        proof {
            assert(rv.take(i + 1).drop_last() =~= rv.take(i as int));
            assert(rv.take(i + 1).last() == rv[i as int]);
            assert forall|j: int| 0 <= j < i implies rv.take(i + 1)[j] == rv[j] by {}
        }
        let p = chars_of(recs[i].path.as_str());
        let rooted = p.len() > 0 && p[0] == '/';
        if !rooted || duplicates_earlier(recs, i) {
            proof {
                let t = rv.take(i + 1);
                assert(t.last() == rv[i as int]);
                assert(registry_problem(t) is Some);
            }
            let mut d = chars_of("vaults[");
            append_chars(&mut d, decimal_chars(i as u64).as_slice());
            if !rooted {
                append_chars(&mut d, chars_of("].path must be absolute").as_slice());
            } else {
                append_chars(&mut d, chars_of("] duplicates an earlier ID or path").as_slice());
            }
            proof {
                lemma_problem_stays(rv, i as int + 1);
                assert(rv.take(rv.len() as int) =~= rv);
            }
            return Err(KbError::invalid_config(registry_path, string_of(d.as_slice()).as_str()));
        }
        i = i + 1;
    }
    proof {
        assert(rv.take(rv.len() as int) =~= rv);
    }
    Ok(())
}

proof fn lemma_problem_stays(recs: Seq<RecordView>, i: int)
    requires
        0 <= i <= recs.len(),
        registry_problem(recs.take(i)) is Some,
    ensures
        registry_problem(recs) == registry_problem(recs.take(i)),
    decreases recs.len() - i,
{
    if i < recs.len() {
        assert(recs.take(i + 1).drop_last() =~= recs.take(i));
        lemma_problem_stays(recs, i + 1);
    } else {
        assert(recs.take(i) =~= recs);
    }
}

/// The registry after registering a record, when that succeeds (see
/// `register_record`).
pub open spec fn register_result(before: Seq<RecordView>, c: RecordView) -> Option<Seq<RecordView>> {
    let k = id_index(before, c.id);
    if k >= 0 {
        if same_path(before[k].path, c.path) {
            Some(before)
        } else {
            None
        }
    } else if path_owner(before, c.path, c.id) >= 0 {
        None
    } else {
        Some(sorted_by_id(before.push(c)))
    }
}

/// The index of the first record with an ID, or -1.
pub open spec fn id_index(recs: Seq<RecordView>, id: Seq<char>) -> int
    decreases recs.len(),
{
    if recs.len() == 0 {
        -1
    } else {
        let r = id_index(recs.drop_last(), id);
        if r >= 0 {
            r
        } else if recs.last().id == id {
            recs.len() - 1
        } else {
            -1
        }
    }
}

/// The index of the first record at the same path as `path` under another
/// ID than `allowed`, or -1.
pub open spec fn path_owner(recs: Seq<RecordView>, path: Seq<char>, allowed: Seq<char>) -> int
    decreases recs.len(),
{
    if recs.len() == 0 {
        -1
    } else {
        let r = path_owner(recs.drop_last(), path, allowed);
        if r >= 0 {
            r
        } else if same_path(recs.last().path, path) && recs.last().id != allowed {
            recs.len() - 1
        } else {
            -1
        }
    }
}

/// Where a record goes among records ordered by ID: before the first with a
/// greater ID.
pub open spec fn id_slot(s: Seq<RecordView>, x: RecordView) -> int
    decreases s.len(),
{
    if s.len() == 0 {
        0
    } else if chars_lt(x.id, s[0].id) {
        0
    } else {
        1 + id_slot(s.drop_first(), x)
    }
}

/// Records stably sorted by ID.
pub open spec fn sorted_by_id(s: Seq<RecordView>) -> Seq<RecordView>
    decreases s.len(),
{
    if s.len() == 0 {
        s
    } else {
        let r = sorted_by_id(s.drop_last());
        r.insert(id_slot(r, s.last()), s.last())
    }
}

/// The records without those of an ID, in order.
pub open spec fn without_id(s: Seq<RecordView>, id: Seq<char>) -> Seq<RecordView>
    decreases s.len(),
{
    if s.len() == 0 {
        s
    } else if s.last().id == id {
        without_id(s.drop_last(), id)
    } else {
        without_id(s.drop_last(), id).push(s.last())
    }
}

pub open spec fn already_message(id: Seq<char>, at: Seq<char>) -> Seq<char> {
    "Vault "@ + id + " is already registered at "@ + at + "."@
}

pub open spec fn rebind_hint(id: Seq<char>, path: Seq<char>) -> Seq<char> {
    "Run kb vault rebind "@ + id + " "@ + path + " if the Vault was moved."@
}

pub open spec fn path_taken_detail(owner: Seq<char>) -> Seq<char> {
    "path is already registered as Vault "@ + owner
}

fn id_index_exec(recs: &Vec<VaultRecord>, id: &[char]) -> (k: Option<usize>)
    ensures
        match k {
            Some(i) => id_index(record_views(recs@), id@) == i && i < recs@.len(),
            None => id_index(record_views(recs@), id@) == -1,
        },
{
    let ghost rv = record_views(recs@);
    let mut i: usize = 0;
    proof {
        assert(rv.take(0) =~= Seq::<RecordView>::empty());
    }
    while i < recs.len()
        invariant
            i <= recs@.len(),
            rv == record_views(recs@),
            id_index(rv.take(i as int), id@) == -1,
        decreases recs@.len() - i,
    {
        proof {
            assert(rv.take(i + 1).drop_last() =~= rv.take(i as int));
            assert(rv.take(i + 1).last() == rv[i as int]);
        }
        let c = chars_of(recs[i].vault_id.as_str());
        if equal_chars(c.as_slice(), id) {
            proof {
                lemma_id_index_prefix(rv, id@, i as int + 1);
            }
            return Some(i);
        }
        i = i + 1;
    }
    proof {
        assert(rv.take(rv.len() as int) =~= rv);
    }
    None
}

proof fn lemma_id_index_prefix(s: Seq<RecordView>, id: Seq<char>, n: int)
    requires
        0 <= n <= s.len(),
        id_index(s.take(n), id) >= 0,
    ensures
        id_index(s, id) == id_index(s.take(n), id),
    decreases s.len() - n,
{
    if n < s.len() {
        assert(s.take(n + 1).drop_last() =~= s.take(n));
        lemma_id_index_prefix(s, id, n + 1);
    } else {
        assert(s.take(n) =~= s);
    }
}

proof fn lemma_path_owner_prefix(s: Seq<RecordView>, path: Seq<char>, allowed: Seq<char>, n: int)
    requires
        0 <= n <= s.len(),
        path_owner(s.take(n), path, allowed) >= 0,
    ensures
        path_owner(s, path, allowed) == path_owner(s.take(n), path, allowed),
    decreases s.len() - n,
{
    if n < s.len() {
        assert(s.take(n + 1).drop_last() =~= s.take(n));
        lemma_path_owner_prefix(s, path, allowed, n + 1);
    } else {
        assert(s.take(n) =~= s);
    }
}

fn path_owner_exec(recs: &Vec<VaultRecord>, path: &str, allowed: &[char]) -> (k: Option<usize>)
    ensures
        match k {
            Some(i) => path_owner(record_views(recs@), path@, allowed@) == i && i < recs@.len(),
            None => path_owner(record_views(recs@), path@, allowed@) == -1,
        },
{
    let ghost rv = record_views(recs@);
    let mut i: usize = 0;
    proof {
        assert(rv.take(0) =~= Seq::<RecordView>::empty());
    }
    while i < recs.len()
        invariant
            i <= recs@.len(),
            rv == record_views(recs@),
            path_owner(rv.take(i as int), path@, allowed@) == -1,
        decreases recs@.len() - i,
    {
        proof {
            assert(rv.take(i + 1).drop_last() =~= rv.take(i as int));
            assert(rv.take(i + 1).last() == rv[i as int]);
        }
        let c = chars_of(recs[i].vault_id.as_str());
        if paths_equal(recs[i].path.as_str(), path) && !equal_chars(c.as_slice(), allowed) {
            proof {
                lemma_path_owner_prefix(rv, path@, allowed@, i as int + 1);
            }
            return Some(i);
        }
        i = i + 1;
    }
    proof {
        assert(rv.take(rv.len() as int) =~= rv);
    }
    None
}

fn id_slot_exec(sorted: &Vec<VaultRecord>, x: &VaultRecord) -> (j: usize)
    ensures
        j == id_slot(record_views(sorted@), record_view(*x)),
        j <= sorted@.len(),
{
    let ghost sv = record_views(sorted@);
    let xc = chars_of(x.vault_id.as_str());
    let mut j: usize = 0;
    proof {
        assert(sv.skip(0) =~= sv);
    }
    while j < sorted.len()
        invariant
            j <= sorted@.len(),
            sv == record_views(sorted@),
            xc@ == x.vault_id@,
            id_slot(sv, record_view(*x)) == j + id_slot(sv.skip(j as int), record_view(*x)),
        decreases sorted@.len() - j,
    {
        proof {
            assert(sv.skip(j as int)[0] == sv[j as int]);
            assert(sv.skip(j as int).drop_first() =~= sv.skip(j + 1));
        }
        let c = chars_of(sorted[j].vault_id.as_str());
        if chars_less(xc.as_slice(), c.as_slice()) {
            return j;
        }
        j = j + 1;
    }
    j
}

fn sort_by_id(recs: Vec<VaultRecord>) -> (out: Vec<VaultRecord>)
    ensures
        record_views(out@) == sorted_by_id(record_views(recs@)),
{
    let ghost rv = record_views(recs@);
    let mut rest = recs;
    let mut out: Vec<VaultRecord> = Vec::new();
    let n = rest.len();
    let mut i: usize = 0;
    proof {
        assert(record_views(out@) =~= Seq::<RecordView>::empty());
        assert(rv.take(0) =~= Seq::<RecordView>::empty());
    }
    while rest.len() > 0
        invariant
            i + rest@.len() == n,
            n == rv.len(),
            record_views(out@) == sorted_by_id(rv.take(i as int)),
            forall|k: int| 0 <= k < rest@.len() ==> record_view(#[trigger] rest@[k]) == rv[i + k],
        decreases rest@.len(),
    {
        let ghost old_rest = rest@;
        let r = rest.remove(0);
        proof {
            assert(record_view(r) == rv[i as int]);
            assert forall|k: int| 0 <= k < rest@.len() implies record_view(#[trigger] rest@[k]) == rv[i + 1 + k] by {
                assert(rest@[k] == old_rest[k + 1]);
            }
            assert(rv.take(i + 1).drop_last() =~= rv.take(i as int));
            assert(rv.take(i + 1).last() == rv[i as int]);
        }
        let j = id_slot_exec(&out, &r);
        let ghost before = out@;
        out.insert(j, r);
        proof {
            assert(record_views(out@) =~= record_views(before).insert(j as int, record_view(r)));
        }
        i = i + 1;
    }
    proof {
        assert(rv.take(n as int) =~= rv);
    }
    out
}

/// Register a Vault's record. Its ID already registered at the same path
/// gives that record and changes nothing; at another path, an error naming
/// both. Its path registered under another ID is an error naming that ID.
/// Otherwise the record is added and the registry ordered by ID.
pub fn register_record(recs: &mut Vec<VaultRecord>, record: &VaultRecord) -> (r: Result<VaultRecord, KbError>)
    ensures
        r is Ok <==> register_result(record_views(old(recs)@), record_view(*record)) is Some,
        r is Ok ==> register_result(record_views(old(recs)@), record_view(*record)) == Some(record_views(final(recs)@)),
        ({
            let before = record_views(old(recs)@);
            let c = record_view(*record);
            let k = id_index(before, c.id);
            let p = path_owner(before, c.path, c.id);
            if k >= 0 {
                if same_path(before[k].path, c.path) {
                    r matches Ok(x) && record_view(x) == before[k] && record_views(final(recs)@) == before
                } else {
                    r matches Err(e) && e.code == ErrorCode::InvalidConfig && !e.retryable && e.message@
                        == already_message(c.id, before[k].path) && e.remediation@ == rebind_hint(c.id, c.path)
                        && record_views(final(recs)@) == before
                }
            } else if p >= 0 {
                r matches Err(e) && e.code == ErrorCode::InvalidConfig && e.message@ == config_message(
                    c.path,
                    path_taken_detail(before[p].id),
                ) && record_views(final(recs)@) == before
            } else {
                r matches Ok(x) && record_view(x) == c && record_views(final(recs)@) == sorted_by_id(before.push(c))
            }
        }),
{
    let ghost before = record_views(recs@);
    let id = chars_of(record.vault_id.as_str());
    match id_index_exec(recs, id.as_slice()) {
        Some(k) => {
            proof {
                assert(before[k as int] == record_view(recs@[k as int]));
            }
            if paths_equal(recs[k].path.as_str(), record.path.as_str()) {
                let existing = VaultRecord { vault_id: recs[k].vault_id.clone(), path: recs[k].path.clone() };
                return Ok(existing);
            }
            let mut m = chars_of("Vault ");
            append_chars(&mut m, id.as_slice());
            append_chars(&mut m, chars_of(" is already registered at ").as_slice());
            append_chars(&mut m, chars_of(recs[k].path.as_str()).as_slice());
            append_chars(&mut m, chars_of(".").as_slice());
            let mut h = chars_of("Run kb vault rebind ");
            append_chars(&mut h, id.as_slice());
            append_chars(&mut h, chars_of(" ").as_slice());
            append_chars(&mut h, chars_of(record.path.as_str()).as_slice());
            append_chars(&mut h, chars_of(" if the Vault was moved.").as_slice());
            return Err(
                KbError::new(ErrorCode::InvalidConfig, string_of(m.as_slice()).as_str(), false, string_of(h.as_slice()).as_str()),
            );
        },
        None => {},
    }
    match path_owner_exec(recs, record.path.as_str(), id.as_slice()) {
        Some(p) => {
            let mut d = chars_of("path is already registered as Vault ");
            append_chars(&mut d, chars_of(recs[p].vault_id.as_str()).as_slice());
            return Err(KbError::invalid_config(record.path.as_str(), string_of(d.as_slice()).as_str()));
        },
        None => {},
    }
    let added = VaultRecord { vault_id: record.vault_id.clone(), path: record.path.clone() };
    let mut all = Vec::new();
    std::mem::swap(&mut all, recs);
    let ghost prev = all@;
    all.push(VaultRecord { vault_id: record.vault_id.clone(), path: record.path.clone() });
    proof {
        assert(record_views(all@) =~= record_views(prev).push(record_view(*record)));
    }
    *recs = sort_by_id(all);
    Ok(added)
}

/// The error of an ID that is not registered.
pub fn unregistered(vault_id: &str) -> (e: KbError)
    ensures
        e.code == ErrorCode::VaultNotFound,
        e.message@ == "Vault "@ + vault_id@ + " is not registered."@,
        !e.retryable,
        e.remediation@ == "Run kb vault register <path> first."@,
{
    let mut m = chars_of("Vault ");
    append_chars(&mut m, chars_of(vault_id).as_slice());
    append_chars(&mut m, chars_of(" is not registered.").as_slice());
    KbError::new(ErrorCode::VaultNotFound, string_of(m.as_slice()).as_str(), false, "Run kb vault register <path> first.")
}

/// Point a registered ID at its Vault's new path. The Vault found at the new
/// path (`candidate`, read at `root`) must have that ID; the path must not
/// be another ID's; the ID must be registered. Only that record's path
/// changes.
pub fn rebind_record(recs: &mut Vec<VaultRecord>, vault_id: &str, candidate: &VaultRecord, root: &str) -> (r: Result<
    VaultRecord,
    KbError,
>)
    ensures
        ({
            let before = record_views(old(recs)@);
            let c = record_view(*candidate);
            let p = path_owner(before, c.path, vault_id@);
            let k = id_index(before, vault_id@);
            if c.id != vault_id@ {
                r matches Err(e) && e.code == ErrorCode::InvalidConfig && e.message@ == config_message(
                    root@,
                    "expected vault_id "@ + vault_id@ + ", found "@ + c.id,
                ) && record_views(final(recs)@) == before
            } else if p >= 0 {
                r matches Err(e) && e.code == ErrorCode::InvalidConfig && e.message@ == config_message(
                    c.path,
                    path_taken_detail(before[p].id),
                ) && record_views(final(recs)@) == before
            } else if k < 0 {
                r matches Err(e) && e.code == ErrorCode::VaultNotFound && record_views(final(recs)@) == before
            } else {
                let moved = RecordView { id: before[k].id, path: c.path };
                r matches Ok(x) && record_view(x) == moved && record_views(final(recs)@) == before.update(k, moved)
            }
        }),
{
    let ghost before = record_views(recs@);
    let id = chars_of(vault_id);
    let cid = chars_of(candidate.vault_id.as_str());
    if !equal_chars(cid.as_slice(), id.as_slice()) {
        let mut d = chars_of("expected vault_id ");
        append_chars(&mut d, id.as_slice());
        append_chars(&mut d, chars_of(", found ").as_slice());
        append_chars(&mut d, cid.as_slice());
        return Err(KbError::invalid_config(root, string_of(d.as_slice()).as_str()));
    }
    match path_owner_exec(recs, candidate.path.as_str(), id.as_slice()) {
        Some(p) => {
            let mut d = chars_of("path is already registered as Vault ");
            append_chars(&mut d, chars_of(recs[p].vault_id.as_str()).as_slice());
            return Err(KbError::invalid_config(candidate.path.as_str(), string_of(d.as_slice()).as_str()));
        },
        None => {},
    }
    let k = match id_index_exec(recs, id.as_slice()) {
        Some(k) => k,
        None => {
            return Err(unregistered(vault_id));
        },
    };
    let moved = VaultRecord { vault_id: recs[k].vault_id.clone(), path: candidate.path.clone() };
    let copy = VaultRecord { vault_id: recs[k].vault_id.clone(), path: candidate.path.clone() };
    let ghost prev = recs@;
    recs.set(k, copy);
    proof {
        assert(record_views(recs@) =~= record_views(prev).update(k as int, record_view(moved)));
    }
    Ok(moved)
}

/// Drop every record of an ID, keeping the others in order.
pub fn unregister_record(recs: &mut Vec<VaultRecord>, vault_id: &str)
    ensures
        record_views(final(recs)@) == without_id(record_views(old(recs)@), vault_id@),
{
    let ghost rv = record_views(recs@);
    let id = chars_of(vault_id);
    let mut kept: Vec<VaultRecord> = Vec::new();
    let mut i: usize = 0;
    proof {
        assert(rv.take(0) =~= Seq::<RecordView>::empty());
        assert(record_views(kept@) =~= Seq::<RecordView>::empty());
    }
    while i < recs.len()
        invariant
            i <= recs@.len(),
            rv == record_views(recs@),
            id@ == vault_id@,
            record_views(kept@) == without_id(rv.take(i as int), vault_id@),
        decreases recs@.len() - i,
    {
        proof {
            assert(rv.take(i + 1).drop_last() =~= rv.take(i as int));
            assert(rv.take(i + 1).last() == rv[i as int]);
        }
        let c = chars_of(recs[i].vault_id.as_str());
        if !equal_chars(c.as_slice(), id.as_slice()) {
            let ghost before = kept@;
            kept.push(VaultRecord { vault_id: recs[i].vault_id.clone(), path: recs[i].path.clone() });
            proof {
                assert(record_views(kept@) =~= record_views(before).push(rv[i as int]));
            }
        }
        i = i + 1;
    }
    proof {
        assert(rv.take(rv.len() as int) =~= rv);
    }
    *recs = kept;
}

proof fn lemma_id_index(s: Seq<RecordView>, id: Seq<char>)
    ensures
        -1 <= id_index(s, id) < s.len(),
        id_index(s, id) >= 0 ==> s[id_index(s, id)].id == id,
        id_index(s, id) == -1 <==> forall|i: int| 0 <= i < s.len() ==> #[trigger] s[i].id != id,
    decreases s.len(),
{
    if s.len() > 0 {
        lemma_id_index(s.drop_last(), id);
        assert forall|i: int| 0 <= i < s.len() - 1 implies #[trigger] s[i] == s.drop_last()[i] by {}
        if id_index(s, id) == -1 {
            assert forall|i: int| 0 <= i < s.len() implies #[trigger] s[i].id != id by {
                if i < s.len() - 1 {
                    assert(s.drop_last()[i].id != id);
                }
            }
        }
    }
}

proof fn lemma_id_slot(s: Seq<RecordView>, x: RecordView)
    ensures
        0 <= id_slot(s, x) <= s.len(),
    decreases s.len(),
{
    if s.len() > 0 && !chars_lt(x.id, s[0].id) {
        lemma_id_slot(s.drop_first(), x);
    }
}

/// Sorting keeps exactly the records it is given.
proof fn lemma_sorted_elements(s: Seq<RecordView>)
    ensures
        sorted_by_id(s).len() == s.len(),
        forall|x: RecordView| sorted_by_id(s).contains(x) <==> s.contains(x),
    decreases s.len(),
{
    if s.len() > 0 {
        let r = sorted_by_id(s.drop_last());
        lemma_sorted_elements(s.drop_last());
        lemma_id_slot(r, s.last());
        let j = id_slot(r, s.last());
        let t = r.insert(j, s.last());
        assert forall|x: RecordView| t.contains(x) <==> s.contains(x) by {
            if t.contains(x) {
                let k = choose|k: int| 0 <= k < t.len() && t[k] == x;
                if k < j {
                    assert(r.contains(x)) by { assert(r[k] == x); }
                    assert(s.drop_last().contains(x));
                    let m = choose|m: int| 0 <= m < s.drop_last().len() && s.drop_last()[m] == x;
                    assert(s[m] == x);
                } else if k == j {
                    assert(s[s.len() - 1] == x);
                } else {
                    assert(r.contains(x)) by { assert(r[k - 1] == x); }
                    assert(s.drop_last().contains(x));
                    let m = choose|m: int| 0 <= m < s.drop_last().len() && s.drop_last()[m] == x;
                    assert(s[m] == x);
                }
            }
            if s.contains(x) {
                let k = choose|k: int| 0 <= k < s.len() && s[k] == x;
                if k == s.len() - 1 {
                    assert(t[j] == x);
                } else {
                    assert(s.drop_last()[k] == x);
                    assert(s.drop_last().contains(x));
                    assert(r.contains(x));
                    let m = choose|m: int| 0 <= m < r.len() && r[m] == x;
                    if m < j {
                        assert(t[m] == x);
                    } else {
                        assert(t[m + 1] == x);
                    }
                }
            }
        }
    }
}

/// Registering a record that was just registered succeeds and changes
/// nothing.
pub proof fn registering_again_changes_nothing(before: Seq<RecordView>, c: RecordView)
    requires
        register_result(before, c) is Some,
    ensures
        register_result(register_result(before, c)->0, c) == register_result(before, c),
{
    let after = register_result(before, c)->0;
    lemma_id_index(before, c.id);
    if id_index(before, c.id) < 0 {
        let t = before.push(c);
        lemma_sorted_elements(t);
        assert(t[before.len() as int] == c);
        assert(t.contains(c));
        assert(after.contains(c));
        lemma_id_index(after, c.id);
        let w = choose|i: int| 0 <= i < after.len() && after[i] == c;
        assert(after[w].id == c.id);
        let k = id_index(after, c.id);
        assert(k >= 0);
        assert(after.contains(after[k]));
        assert(t.contains(after[k]));
        let m = choose|m: int| 0 <= m < t.len() && t[m] == after[k];
        if m < before.len() {
            assert(before[m].id != c.id);
        }
        assert(after[k] == c);
    }
}

/// Unregistering an ID keeps exactly the records of other IDs.
pub proof fn unregistering_keeps_only_other_vaults(before: Seq<RecordView>, id: Seq<char>)
    ensures
        forall|x: RecordView| #[trigger] without_id(before, id).contains(x) <==> (before.contains(x) && x.id != id),
    decreases before.len(),
{
    if before.len() > 0 {
        let rest = before.drop_last();
        unregistering_keeps_only_other_vaults(rest, id);
        assert forall|x: RecordView| without_id(before, id).contains(x) <==> (before.contains(x) && x.id != id) by {
            if before.contains(x) && x.id != id {
                let k = choose|k: int| 0 <= k < before.len() && before[k] == x;
                if k < before.len() - 1 {
                    assert(rest[k] == x);
                    assert(rest.contains(x));
                    assert(without_id(rest, id).contains(x));
                    let w = without_id(rest, id);
                    let m = choose|m: int| 0 <= m < w.len() && w[m] == x;
                    assert(without_id(before, id)[m] == x);
                } else {
                    assert(without_id(before, id) == without_id(rest, id).push(x));
                    assert(without_id(before, id)[without_id(rest, id).len() as int] == x);
                }
            }
            if without_id(before, id).contains(x) {
                let w = without_id(before, id);
                let k = choose|k: int| 0 <= k < w.len() && w[k] == x;
                if before.last().id == id {
                    assert(without_id(rest, id).contains(x));
                } else if k < without_id(rest, id).len() {
                    assert(without_id(rest, id)[k] == x);
                    assert(without_id(rest, id).contains(x));
                } else {
                    assert(x == before.last());
                    assert(before[before.len() - 1] == x);
                }
                if without_id(rest, id).contains(x) {
                    assert(rest.contains(x) && x.id != id);
                    let m = choose|m: int| 0 <= m < rest.len() && rest[m] == x;
                    assert(before[m] == x);
                }
            }
        }
    }
}

/// Two records differ in both ID and path.
pub open spec fn apart(a: RecordView, b: RecordView) -> bool {
    a.id != b.id && !same_path(a.path, b.path)
}

/// Every path absolute and every two records apart.
pub open spec fn pairwise_valid(s: Seq<RecordView>) -> bool {
    &&& forall|i: int| 0 <= i < s.len() ==> absolute(#[trigger] s[i].path)
    &&& forall|i: int, j: int| 0 <= i < j < s.len() ==> apart(#[trigger] s[i], #[trigger] s[j])
}

proof fn lemma_valid_pairwise(s: Seq<RecordView>)
    ensures
        valid_registry(s) <==> pairwise_valid(s),
    decreases s.len(),
{
    if s.len() > 0 {
        let d = s.drop_last();
        let n = s.len() - 1;
        lemma_valid_pairwise(d);
        assert forall|i: int| 0 <= i < n implies #[trigger] d[i] == s[i] by {}
        if pairwise_valid(s) {
            assert(pairwise_valid(d)) by {
                assert forall|i: int, j: int| 0 <= i < j < d.len() implies apart(#[trigger] d[i], #[trigger] d[j]) by {
                    assert(apart(s[i], s[j]));
                }
                assert forall|i: int| 0 <= i < d.len() implies absolute(#[trigger] d[i].path) by {
                    assert(absolute(s[i].path));
                }
            }
            assert(absolute(s[n].path));
            assert(!repeats_earlier(s, n)) by {
                if repeats_earlier(s, n) {
                    let j = choose|j: int| #![trigger s[j]] 0 <= j < n && (s[j].id == s[n].id || same_path(s[j].path, s[n].path));
                    assert(apart(s[j], s[n]));
                }
            }
        }
        if valid_registry(s) {
            assert(registry_problem(d) is None);
            assert(absolute(s.last().path));
            assert(!repeats_earlier(s, n));
            assert forall|i: int, j: int| 0 <= i < j < s.len() implies apart(#[trigger] s[i], #[trigger] s[j]) by {
                if j < n {
                    assert(apart(d[i], d[j]));
                } else {
                    if !apart(s[i], s[j]) {
                        assert(s[i].id == s[n].id || same_path(s[i].path, s[n].path));
                        assert(repeats_earlier(s, n));
                    }
                }
            }
            assert forall|i: int| 0 <= i < s.len() implies absolute(#[trigger] s[i].path) by {
                if i < n {
                    assert(absolute(d[i].path));
                }
            }
        }
    }
}

proof fn lemma_path_owner(s: Seq<RecordView>, path: Seq<char>, allowed: Seq<char>)
    ensures
        path_owner(s, path, allowed) == -1 ==> forall|i: int|
            0 <= i < s.len() ==> !(same_path(#[trigger] s[i].path, path) && s[i].id != allowed),
    decreases s.len(),
{
    if s.len() > 0 {
        lemma_path_owner(s.drop_last(), path, allowed);
        if path_owner(s, path, allowed) == -1 {
            assert forall|i: int| 0 <= i < s.len() implies !(same_path(#[trigger] s[i].path, path) && s[i].id != allowed) by {
                if i < s.len() - 1 {
                    assert(s[i] == s.drop_last()[i]);
                }
            }
        }
    }
}

proof fn lemma_insert_apart(r: Seq<RecordView>, j: int, x: RecordView)
    requires
        pairwise_valid(r),
        0 <= j <= r.len(),
        absolute(x.path),
        forall|y: RecordView| r.contains(y) ==> apart(y, x),
    ensures
        pairwise_valid(r.insert(j, x)),
{
    let t = r.insert(j, x);
    assert forall|a: int, b: int| 0 <= a < b < t.len() implies apart(#[trigger] t[a], #[trigger] t[b]) by {
        if a < j && b < j {
            assert(apart(r[a], r[b]));
        } else if a < j && b == j {
            assert(r.contains(r[a]));
        } else if a < j && b > j {
            assert(apart(r[a], r[b - 1]));
        } else if a == j {
            assert(r.contains(r[b - 1]));
            assert(apart(r[b - 1], x));
            assert(t[a] == x && t[b] == r[b - 1]);
            assert(r[b - 1].id != x.id);
            assert(same_path(x.path, r[b - 1].path) == same_path(r[b - 1].path, x.path));
        } else {
            assert(apart(r[a - 1], r[b - 1]));
        }
    }
    assert forall|i: int| 0 <= i < t.len() implies absolute(#[trigger] t[i].path) by {
        if i < j {
            assert(absolute(r[i].path));
        } else if i > j {
            assert(absolute(r[i - 1].path));
        }
    }
}

proof fn lemma_sorted_valid(t: Seq<RecordView>)
    requires
        pairwise_valid(t),
    ensures
        pairwise_valid(sorted_by_id(t)),
    decreases t.len(),
{
    if t.len() > 0 {
        let d = t.drop_last();
        let n = t.len() - 1;
        assert forall|i: int| 0 <= i < n implies #[trigger] d[i] == t[i] by {}
        assert(pairwise_valid(d)) by {
            assert forall|i: int, j: int| 0 <= i < j < d.len() implies apart(#[trigger] d[i], #[trigger] d[j]) by {
                assert(apart(t[i], t[j]));
            }
            assert forall|i: int| 0 <= i < d.len() implies absolute(#[trigger] d[i].path) by {
                assert(absolute(t[i].path));
            }
        }
        lemma_sorted_valid(d);
        let r = sorted_by_id(d);
        lemma_sorted_elements(d);
        lemma_id_slot(r, t.last());
        assert(absolute(t[n].path));
        assert forall|y: RecordView| r.contains(y) implies apart(y, t.last()) by {
            assert(d.contains(y));
            let m = choose|m: int| 0 <= m < d.len() && d[m] == y;
            assert(apart(t[m], t[n]));
        }
        lemma_insert_apart(r, id_slot(r, t.last()), t.last());
    }
}

/// Registering a record at an absolute path keeps a valid registry valid:
/// every path absolute, no ID and no path twice.
pub proof fn registering_keeps_registry_valid(before: Seq<RecordView>, c: RecordView)
    requires
        valid_registry(before),
        absolute(c.path),
        register_result(before, c) is Some,
    ensures
        valid_registry(register_result(before, c)->0),
{
    lemma_id_index(before, c.id);
    if id_index(before, c.id) < 0 {
        lemma_valid_pairwise(before);
        lemma_path_owner(before, c.path, c.id);
        let t = before.push(c);
        assert forall|i: int, j: int| 0 <= i < j < t.len() implies apart(#[trigger] t[i], #[trigger] t[j]) by {
            if j < before.len() {
                assert(apart(before[i], before[j]));
            } else {
                assert(before[i].id != c.id);
                assert(!(same_path(before[i].path, c.path) && before[i].id != c.id));
            }
        }
        assert forall|i: int| 0 <= i < t.len() implies absolute(#[trigger] t[i].path) by {
            if i < before.len() {
                assert(absolute(before[i].path));
            }
        }
        lemma_sorted_valid(t);
        lemma_valid_pairwise(sorted_by_id(t));
    }
}

} // verus!
