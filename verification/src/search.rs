//! Direct search: matching blocks of documents against a phrase, ranking
//! the hits and cutting them to a limit.
use vstd::prelude::*;
use crate::bm25::{lowercase, lowercase_chars};
use crate::error::{ErrorCode, KbError};
use crate::extract::{
    block_view, block_views, document_view, extract_bytes, BlockView, DocumentView, ExtractedBlock, ExtractedDocument,
    LocationView, MediaType, SourceLocation,
};
use crate::text::{
    chars_of, contains_seq, equal_chars, find_from, lines, lines_of, occurs_at, occurs_at_exec, slice_vec, split_whitespace,
    string_of, views, vviews, words,
};

verus! {

/// How a phrase is matched.
#[derive(Debug, Clone, Copy, PartialEq, Eq, Structural)]
pub enum SearchMatchMode {
    /// Case-insensitively, ranking by matches, distinct terms and title.
    Relevant,
    /// Exactly as written, ranking by matches.
    Exact,
}

/// How often `p` occurs in `s`, counting left to right without overlap (an
/// empty pattern matches at every character boundary).
pub open spec fn match_count(s: Seq<char>, p: Seq<char>) -> nat
    decreases s.len(),
{
    if p.len() == 0 {
        s.len() + 1
    } else if s.len() < p.len() {
        0
    } else if occurs_at(s, p, 0) {
        1 + match_count(s.skip(p.len() as int), p)
    } else {
        match_count(s.drop_first(), p)
    }
}

proof fn lemma_match_count_bound(s: Seq<char>, p: Seq<char>)
    ensures
        match_count(s, p) <= s.len() + 1,
        p.len() > 0 ==> match_count(s, p) <= s.len(),
    decreases s.len(),
{
    if p.len() > 0 && s.len() >= p.len() {
        if occurs_at(s, p, 0) {
            lemma_match_count_bound(s.skip(p.len() as int), p);
        } else {
            lemma_match_count_bound(s.drop_first(), p);
        }
    }
}

/// How often a phrase occurs (see `match_count`).
pub fn count_matches(s: &[char], p: &[char]) -> (n: u64)
    requires
        p@.len() > 0 || s@.len() < usize::MAX,
    ensures
        n == match_count(s@, p@),
{
    if p.len() == 0 {
        return s.len() as u64 + 1;
    }
    let mut n: u64 = 0;
    let mut i: usize = 0;
    proof {
        assert(s@.skip(0) =~= s@);
        lemma_match_count_bound(s@, p@);
    }
    while i < s.len() && p.len() <= s.len() - i
        invariant
            i <= s@.len(),
            p@.len() > 0,
            n + match_count(s@.skip(i as int), p@) == match_count(s@, p@),
            match_count(s@, p@) <= s@.len(),
        decreases s@.len() - i,
    {
        proof {
            lemma_match_count_bound(s@.skip(i as int), p@);
            assert(occurs_at(s@.skip(i as int), p@, 0) == occurs_at(s@, p@, i as int)) by {
                assert(s@.skip(i as int).subrange(0, p@.len() as int) =~= s@.subrange(i as int, i + p@.len()));
            }
        }
        if occurs_at_exec(s, p, i) {
            proof {
                assert(s@.skip(i as int).skip(p@.len() as int) =~= s@.skip(i + p@.len()));
                assert(match_count(s@.skip(i as int), p@) >= 1);
            }
            n = n + 1;
            i = i + p.len();
        } else {
            proof {
                assert(s@.skip(i as int).drop_first() =~= s@.skip(i + 1));
            }
            i = i + 1;
        }
    }
    proof {
        assert(s@.skip(i as int).len() < p@.len());
    }
    n
}

/// The words of a phrase, each kept the first time it occurs.
pub open spec fn distinct_words(ws: Seq<Seq<char>>) -> Seq<Seq<char>>
    decreases ws.len(),
{
    if ws.len() == 0 {
        Seq::empty()
    } else {
        let rest = distinct_words(ws.drop_last());
        if ws.drop_last().contains(ws.last()) { rest } else { rest.push(ws.last()) }
    }
}

/// How many of the terms occur in the text.
pub open spec fn terms_in(text: Seq<char>, terms: Seq<Seq<char>>) -> nat
    decreases terms.len(),
{
    if terms.len() == 0 {
        0
    } else {
        terms_in(text, terms.drop_last()) + if contains_seq(text, terms.last()) { 1nat } else { 0nat }
    }
}

/// A document to search: where it lies, where its content lies, the
/// source's address, its title, its media type and bytes, and the notes
/// that annotate it.
#[derive(Debug)]
pub struct SearchDocument {
    pub path: String,
    pub content_path: String,
    pub source_uri: Option<String>,
    pub title: String,
    pub media: MediaType,
    pub bytes: Vec<u8>,
    pub annotation: Option<String>,
}

/// How a hit was found: by reading the documents directly, or from the
/// BM25F index.
#[derive(Debug, Clone, Copy, PartialEq, Eq, Structural)]
pub enum SearchBackend {
    Direct,
    Bm25f,
}

/// One search hit; a direct search sets its backend and gives no score.
#[derive(Debug)]
pub struct SearchHit {
    pub path: String,
    pub content_path: String,
    pub source_uri: Option<String>,
    pub title: String,
    pub heading: Option<String>,
    pub line_start: Option<u64>,
    pub location: Option<SourceLocation>,
    pub snippet: String,
    pub match_count: u64,
    pub backend: Option<SearchBackend>,
    pub score_micros: Option<u64>,
}

/// The line of a block that shows a hit: the first line that holds the
/// phrase (case-insensitively when relevant), else the whole text; at most
/// 240 characters of it.
pub open spec fn snippet_of(text: Seq<char>, phrase: Seq<char>, mode: SearchMatchMode) -> Seq<char> {
    let ls = lines_of(text);
    let line = if exists|i: int| 0 <= i < ls.len() && holds_phrase(#[trigger] ls[i], phrase, mode) {
        ls[first_holding(ls, phrase, mode)]
    } else {
        text
    };
    if line.len() > 240 { line.take(240) } else { line }
}

pub open spec fn holds_phrase(line: Seq<char>, phrase: Seq<char>, mode: SearchMatchMode) -> bool {
    match mode {
        SearchMatchMode::Relevant => contains_seq(lowercase_chars(line), phrase),
        SearchMatchMode::Exact => contains_seq(line, phrase),
    }
}

pub open spec fn first_holding(ls: Seq<Seq<char>>, phrase: Seq<char>, mode: SearchMatchMode) -> int {
    choose|i: int| 0 <= i < ls.len() && holds_phrase(ls[i], phrase, mode)
        && forall|k: int| 0 <= k < i ==> !holds_phrase(#[trigger] ls[k], phrase, mode)
}

fn contains_exec(s: &[char], p: &[char]) -> (b: bool)
    ensures
        b == contains_seq(s@, p@),
{
    match find_from(s, p, 0) {
        Some(_) => true,
        None => false,
    }
}

fn holds_exec(line: &Vec<char>, phrase: &[char], mode: SearchMatchMode) -> (b: bool)
    ensures
        b == holds_phrase(line@, phrase@, mode),
{
    match mode {
        SearchMatchMode::Relevant => {
            let folded = chars_of(lowercase(string_of(line.as_slice()).as_str()).as_str());
            contains_exec(folded.as_slice(), phrase)
        },
        SearchMatchMode::Exact => contains_exec(line.as_slice(), phrase),
    }
}

/// The snippet of a hit (see `snippet_of`).
pub fn snippet(text: &str, phrase: &[char], mode: SearchMatchMode) -> (out: String)
    ensures
        out@ == snippet_of(text@, phrase@, mode),
{
    let t = chars_of(text);
    let ls = lines(t.as_slice());
    let ghost lv = vviews(ls@);
    let mut i: usize = 0;
    let mut found: Option<usize> = None;
    while i < ls.len()
        invariant
            i <= ls@.len(),
            lv == vviews(ls@),
            lv == lines_of(text@),
            found is None ==> forall|k: int| 0 <= k < i ==> !holds_phrase(#[trigger] lv[k], phrase@, mode),
            found matches Some(f) ==> f < i && holds_phrase(lv[f as int], phrase@, mode)
                && forall|k: int| 0 <= k < f ==> !holds_phrase(#[trigger] lv[k], phrase@, mode),
        decreases ls@.len() - i,
    {
        proof {
            assert(lv[i as int] == ls@[i as int]@);
        }
        if found.is_none() && holds_exec(&ls[i], phrase, mode) {
            found = Some(i);
        }
        i = i + 1;
    }
    let line = match found {
        Some(k) => {
            proof {
                assert(holds_phrase(lv[k as int], phrase@, mode));
                let f = first_holding(lv, phrase@, mode);
                if f < k {
                    assert(!holds_phrase(lv[f], phrase@, mode));
                }
                if k < f {
                    assert(!holds_phrase(lv[k as int], phrase@, mode));
                }
            }
            ls[k].clone()
        },
        None => {
            t
        },
    };
    if line.len() > 240 {
        string_of(slice_vec(line.as_slice(), 0, 240).as_slice())
    } else {
        string_of(line.as_slice())
    }
}

/// A search hit as values.
pub struct SearchHitView {
    pub path: Seq<char>,
    pub content_path: Seq<char>,
    pub source_uri: Option<Seq<char>>,
    pub title: Seq<char>,
    pub heading: Option<Seq<char>>,
    pub line_start: Option<u64>,
    pub location: Option<LocationView>,
    pub snippet: Seq<char>,
    pub match_count: u64,
    pub backend: Option<SearchBackend>,
    pub score_micros: Option<u64>,
}

pub open spec fn search_hit_view(h: SearchHit) -> SearchHitView {
    SearchHitView {
        path: h.path@,
        content_path: h.content_path@,
        source_uri: crate::extract::opt_view(h.source_uri),
        title: h.title@,
        heading: crate::extract::opt_view(h.heading),
        line_start: h.line_start,
        location: match h.location {
            Some(l) => Some(crate::extract::location_view(l)),
            None => None,
        },
        snippet: h.snippet@,
        match_count: h.match_count,
        backend: h.backend,
        score_micros: h.score_micros,
    }
}

pub open spec fn search_hit_views(v: Seq<SearchHit>) -> Seq<SearchHitView> {
    v.map_values(|h: SearchHit| search_hit_view(h))
}

/// A hit with the numbers it is ranked by, as values.
pub struct HitView {
    pub count: nat,
    pub distinct: nat,
    pub title_match: bool,
    pub hit: SearchHitView,
}

/// A hit with the numbers it is ranked by.
pub struct RankedHit {
    pub count: u64,
    pub distinct: u64,
    pub title_match: bool,
    pub hit: SearchHit,
}

pub open spec fn ranked_view(r: RankedHit) -> HitView {
    HitView {
        count: r.count as nat,
        distinct: r.distinct as nat,
        title_match: r.title_match,
        hit: search_hit_view(r.hit),
    }
}

pub open spec fn ranked_views(v: Seq<RankedHit>) -> Seq<HitView> {
    v.map_values(|r: RankedHit| ranked_view(r))
}

pub open spec fn line_lt(a: Option<u64>, b: Option<u64>) -> bool {
    match (a, b) {
        (None, Some(_)) => true,
        (Some(x), Some(y)) => x < y,
        _ => false,
    }
}

/// `a` ranks before `b`: more matches, then more distinct terms, then a title
/// match, then by path, then by line.
pub open spec fn ranks_before(a: HitView, b: HitView) -> bool {
    if a.count != b.count {
        a.count > b.count
    } else if a.distinct != b.distinct {
        a.distinct > b.distinct
    } else if a.title_match != b.title_match {
        a.title_match
    } else if a.hit.path != b.hit.path {
        crate::sync::chars_lt(a.hit.path, b.hit.path)
    } else {
        line_lt(a.hit.line_start, b.hit.line_start)
    }
}

/// Where a hit goes among ranked hits: before the first that ranks after it.
pub open spec fn hit_slot(s: Seq<HitView>, x: HitView) -> int
    decreases s.len(),
{
    if s.len() == 0 {
        0
    } else if ranks_before(x, s[0]) {
        0
    } else {
        1 + hit_slot(s.drop_first(), x)
    }
}

/// A stable insertion sort of hits by rank.
pub open spec fn ranked(s: Seq<HitView>) -> Seq<HitView>
    decreases s.len(),
{
    if s.len() == 0 {
        s
    } else {
        let r = ranked(s.drop_last());
        r.insert(hit_slot(r, s.last()), s.last())
    }
}

pub(crate) fn chars_less(a: &[char], b: &[char]) -> (r: bool)
    ensures
        r == crate::sync::chars_lt(a@, b@),
{
    let mut i: usize = 0;
    proof {
        assert(a@.skip(0) =~= a@);
        assert(b@.skip(0) =~= b@);
    }
    while i < a.len() && i < b.len()
        invariant
            i <= a@.len(),
            i <= b@.len(),
            crate::sync::chars_lt(a@, b@) == crate::sync::chars_lt(a@.skip(i as int), b@.skip(i as int)),
        decreases a@.len() - i,
    {
        proof {
            assert(a@.skip(i as int)[0] == a@[i as int]);
            assert(b@.skip(i as int)[0] == b@[i as int]);
            assert(a@.skip(i as int).drop_first() =~= a@.skip(i + 1));
            assert(b@.skip(i as int).drop_first() =~= b@.skip(i + 1));
        }
        if a[i] != b[i] {
            return a[i] < b[i];
        }
        i = i + 1;
    }
    i == a.len() && i < b.len()
}

fn ranks_before_exec(a: &RankedHit, b: &RankedHit) -> (r: bool)
    ensures
        r == ranks_before(ranked_view(*a), ranked_view(*b)),
{
    if a.count != b.count {
        return a.count > b.count;
    }
    if a.distinct != b.distinct {
        return a.distinct > b.distinct;
    }
    if a.title_match != b.title_match {
        return a.title_match;
    }
    let ap = chars_of(a.hit.path.as_str());
    let bp = chars_of(b.hit.path.as_str());
    if !equal_chars(ap.as_slice(), bp.as_slice()) {
        return chars_less(ap.as_slice(), bp.as_slice());
    }
    match (a.hit.line_start, b.hit.line_start) {
        (None, Some(_)) => true,
        (Some(x), Some(y)) => x < y,
        _ => false,
    }
}

fn find_hit_slot(sorted: &Vec<RankedHit>, h: &RankedHit) -> (j: usize)
    ensures
        j == hit_slot(ranked_views(sorted@), ranked_view(*h)),
        j <= sorted@.len(),
{
    let ghost sv = ranked_views(sorted@);
    let mut j: usize = 0;
    proof {
        assert(sv.skip(0) =~= sv);
    }
    while j < sorted.len()
        invariant
            j <= sorted@.len(),
            sv == ranked_views(sorted@),
            hit_slot(sv, ranked_view(*h)) == j + hit_slot(sv.skip(j as int), ranked_view(*h)),
        decreases sorted@.len() - j,
    {
        proof {
            assert(sv.skip(j as int)[0] == sv[j as int]);
            assert(sv.skip(j as int).drop_first() =~= sv.skip(j + 1));
        }
        if ranks_before_exec(h, &sorted[j]) {
            return j;
        }
        j = j + 1;
    }
    j
}

/// Rank hits (see `ranked`) and keep the first `limit`.
pub fn rank_hits(hits: Vec<RankedHit>, limit: usize) -> (out: Vec<RankedHit>)
    ensures
        ranked_views(out@) == ({
            let r = ranked(ranked_views(hits@));
            if r.len() > limit { r.take(limit as int) } else { r }
        }),
{
    let ghost hv = ranked_views(hits@);
    let mut hits = hits;
    let mut out: Vec<RankedHit> = Vec::new();
    let mut rest: Vec<RankedHit> = Vec::new();
    let n = hits.len();
    proof {
        assert(ranked_views(out@) =~= Seq::<HitView>::empty());
        assert(hv.take(0) =~= Seq::<HitView>::empty());
    }
    let mut i: usize = 0;
    while hits.len() > 0
        invariant
            i + hits@.len() == n,
            n == hv.len(),
            ranked_views(out@) == ranked(hv.take(i as int)),
            forall|k: int| 0 <= k < hits@.len() ==> ranked_view(#[trigger] hits@[k]) == hv[i + k],
        decreases hits@.len(),
    {
        let ghost old_hits = hits@;
        let h = hits.remove(0);
        proof {
            assert(ranked_view(h) == hv[i as int]);
            assert forall|k: int| 0 <= k < hits@.len() implies ranked_view(#[trigger] hits@[k]) == hv[i + 1 + k] by {
                assert(hits@[k] == old_hits[k + 1]);
            }
            assert(hv.take(i + 1).drop_last() =~= hv.take(i as int));
            assert(hv.take(i + 1).last() == hv[i as int]);
        }
        let j = find_hit_slot(&out, &h);
        let ghost before = out@;
        out.insert(j, h);
        proof {
            assert(ranked_views(out@) =~= ranked_views(before).insert(j as int, ranked_view(h)));
        }
        i = i + 1;
    }
    proof {
        assert(hv.take(n as int) =~= hv);
    }
    if out.len() > limit {
        let ghost full = ranked_views(out@);
        out.truncate(limit);
        proof {
            assert(ranked_views(out@) =~= full.take(limit as int));
        }
    }
    out
}

/// The numbers a block is ranked by: its matches, the distinct terms it
/// holds and whether its heading (or the document's title) holds the phrase,
/// all case-insensitively when relevant; only exact matches otherwise.
pub open spec fn block_numbers(
    text: Seq<char>,
    heading: Option<Seq<char>>,
    title: Seq<char>,
    phrase: Seq<char>,
    terms: Seq<Seq<char>>,
    mode: SearchMatchMode,
) -> (nat, nat, bool) {
    match mode {
        SearchMatchMode::Relevant => {
            let folded = lowercase_chars(text);
            (
                match_count(folded, phrase),
                terms_in(folded, terms),
                contains_seq(lowercase_chars(match heading { Some(h) => h, None => title }), phrase),
            )
        },
        SearchMatchMode::Exact => (match_count(text, phrase), 0, false),
    }
}

proof fn lemma_terms_in_bounded(text: Seq<char>, terms: Seq<Seq<char>>)
    ensures
        terms_in(text, terms) <= terms.len(),
    decreases terms.len(),
{
    if terms.len() > 0 {
        lemma_terms_in_bounded(text, terms.drop_last());
    }
}

fn terms_in_exec(text: &[char], terms: &Vec<Vec<char>>) -> (n: u64)
    ensures
        n == terms_in(text@, vviews(terms@)),
{
    let mut n: u64 = 0;
    let mut i: usize = 0;
    proof {
        assert(vviews(terms@).take(0) =~= Seq::<Seq<char>>::empty());
    }
    while i < terms.len()
        invariant
            i <= terms@.len(),
            n == terms_in(text@, vviews(terms@).take(i as int)),
            n <= i,
        decreases terms@.len() - i,
    {
        proof {
            assert(vviews(terms@).take(i + 1).drop_last() =~= vviews(terms@).take(i as int));
            assert(vviews(terms@).take(i + 1).last() == terms@[i as int]@);
            lemma_terms_in_bounded(text@, vviews(terms@).take(i as int));
        }
        if contains_exec(text, terms[i].as_slice()) {
            n = n + 1;
        }
        i = i + 1;
    }
    proof {
        assert(vviews(terms@).take(terms@.len() as int) =~= vviews(terms@));
    }
    n
}

fn block_numbers_exec(
    text: &String,
    heading: &Option<String>,
    title: &String,
    phrase: &[char],
    terms: &Vec<Vec<char>>,
    mode: SearchMatchMode,
) -> (r: (u64, u64, bool))
    requires
        phrase@.len() > 0,
    ensures
        (r.0 as nat, r.1 as nat, r.2) == block_numbers(text@, crate::extract::opt_view(*heading), title@, phrase@, vviews(terms@), mode),
{
    match mode {
        SearchMatchMode::Relevant => {
            let folded = chars_of(lowercase(text.as_str()).as_str());
            let count = count_matches(folded.as_slice(), phrase);
            let distinct = terms_in_exec(folded.as_slice(), terms);
            let named = match heading {
                Some(h) => h.as_str(),
                None => title.as_str(),
            };
            let t = chars_of(lowercase(named).as_str());
            (count, distinct, contains_exec(t.as_slice(), phrase))
        },
        SearchMatchMode::Exact => {
            let t = chars_of(text.as_str());
            (count_matches(t.as_slice(), phrase), 0, false)
        },
    }
}

/// The distinct words of a phrase (see `distinct_words`).
pub fn phrase_terms(phrase: &[char]) -> (out: Vec<Vec<char>>)
    ensures
        vviews(out@) == distinct_words(words(phrase@)),
{
    let ws = split_whitespace(phrase);
    let mut out: Vec<Vec<char>> = Vec::new();
    let mut i: usize = 0;
    proof {
        assert(vviews(ws@).take(0) =~= Seq::<Seq<char>>::empty());
        assert(vviews(out@) =~= Seq::<Seq<char>>::empty());
    }
    while i < ws.len()
        invariant
            i <= ws@.len(),
            vviews(ws@) == words(phrase@),
            vviews(out@) == distinct_words(vviews(ws@).take(i as int)),
        decreases ws@.len() - i,
    {
        proof {
            assert(vviews(ws@).take(i + 1).drop_last() =~= vviews(ws@).take(i as int));
            assert(vviews(ws@).take(i + 1).last() == ws@[i as int]@);
        }
        let mut seen = false;
        let mut k: usize = 0;
        while k < i
            invariant
                k <= i,
                i < ws@.len(),
                seen == exists|j: int| 0 <= j < k && (#[trigger] ws@[j])@ == ws@[i as int]@,
            decreases i - k,
        {
            if equal_chars(ws[k].as_slice(), ws[i].as_slice()) {
                seen = true;
            }
            k = k + 1;
        }
        proof {
            if seen {
                let j = choose|j: int| 0 <= j < i && (#[trigger] ws@[j])@ == ws@[i as int]@;
                assert(vviews(ws@).take(i as int)[j] == ws@[i as int]@);
            } else {
                assert forall|j: int| 0 <= j < i implies vviews(ws@).take(i as int)[j] != ws@[i as int]@ by {
                    assert(vviews(ws@).take(i as int)[j] == ws@[j]@);
                }
            }
        }
        if !seen {
            let w = ws[i].clone();
            let ghost before = out@;
            out.push(w);
            proof {
                assert(vviews(out@) =~= vviews(before).push(w@));
            }
        }
        i = i + 1;
    }
    proof {
        assert(vviews(ws@).take(ws@.len() as int) =~= vviews(ws@));
    }
    out
}

/// A block's hit, when the block matches: the document's path and source,
/// the block's heading (or the document's title) as title, its place and
/// snippet, and its numbers.
pub open spec fn block_hit(
    path: Seq<char>,
    source_uri: Option<Seq<char>>,
    doc_title: Seq<char>,
    b: BlockView,
    content_path: Seq<char>,
    phrase: Seq<char>,
    terms: Seq<Seq<char>>,
    mode: SearchMatchMode,
) -> Option<HitView> {
    let n = block_numbers(b.text, b.heading, doc_title, phrase, terms, mode);
    if n.0 == 0 && n.1 == 0 {
        None
    } else {
        Some(HitView {
            count: n.0,
            distinct: n.1,
            title_match: n.2,
            hit: SearchHitView {
                path,
                content_path,
                source_uri,
                title: match b.heading {
                    Some(h) => h,
                    None => doc_title,
                },
                heading: b.heading,
                line_start: b.line_start,
                location: b.location,
                snippet: snippet_of(b.text, phrase, mode),
                match_count: n.0 as u64,
                backend: Some(SearchBackend::Direct),
                score_micros: None,
            },
        })
    }
}

/// The hits of blocks, in block order.
pub open spec fn block_hits(
    path: Seq<char>,
    source_uri: Option<Seq<char>>,
    doc_title: Seq<char>,
    bs: Seq<BlockView>,
    content_path: Seq<char>,
    phrase: Seq<char>,
    terms: Seq<Seq<char>>,
    mode: SearchMatchMode,
) -> Seq<HitView>
    decreases bs.len(),
{
    if bs.len() == 0 {
        Seq::empty()
    } else {
        let r = block_hits(path, source_uri, doc_title, bs.drop_last(), content_path, phrase, terms, mode);
        match block_hit(path, source_uri, doc_title, bs.last(), content_path, phrase, terms, mode) {
            Some(h) => r.push(h),
            None => r,
        }
    }
}

/// The blocks of a Markdown annotation: none when it holds NUL.
pub open spec fn annotation_blocks(a: Seq<char>) -> Seq<BlockView> {
    if a.contains('\0') {
        Seq::empty()
    } else {
        crate::extract::spec_markdown_blocks(a)
    }
}

/// A document to search, as values.
pub struct SearchDocView {
    pub path: Seq<char>,
    pub content_path: Seq<char>,
    pub source_uri: Option<Seq<char>>,
    pub title: Seq<char>,
    pub media: MediaType,
    pub bytes: Seq<u8>,
    pub annotation: Option<Seq<char>>,
}

pub open spec fn search_doc_view(d: SearchDocument) -> SearchDocView {
    SearchDocView {
        path: d.path@,
        content_path: d.content_path@,
        source_uri: crate::extract::opt_view(d.source_uri),
        title: d.title@,
        media: d.media,
        bytes: d.bytes@,
        annotation: crate::extract::opt_view(d.annotation),
    }
}

/// The title a document's hits carry: the extracted title, else the
/// document's own.
pub open spec fn doc_title_of(d: SearchDocView, ex: DocumentView) -> Seq<char> {
    match ex.title {
        Some(t) => t,
        None => d.title,
    }
}

/// The hits of one document: those of its extracted blocks (at its content
/// path), then those of its annotation's blocks (at its own path); when
/// relevant and no block matched, one hit for a title that holds the phrase.
pub open spec fn document_hits_of(
    d: SearchDocView,
    ex: DocumentView,
    phrase: Seq<char>,
    terms: Seq<Seq<char>>,
    mode: SearchMatchMode,
) -> Seq<HitView> {
    let title = doc_title_of(d, ex);
    let hs = block_hits(d.path, d.source_uri, title, ex.blocks, d.content_path, phrase, terms, mode)
        + match d.annotation {
        Some(a) => block_hits(d.path, d.source_uri, title, annotation_blocks(a), d.path, phrase, terms, mode),
        None => Seq::empty(),
    };
    if mode == SearchMatchMode::Relevant && hs.len() == 0 && contains_seq(lowercase_chars(title), phrase) {
        hs.push(title_hit(d, title, terms.len()))
    } else {
        hs
    }
}

/// The hit for a document whose title alone holds the phrase.
pub open spec fn title_hit(d: SearchDocView, title: Seq<char>, n_terms: nat) -> HitView {
    HitView {
        count: 1,
        distinct: n_terms,
        title_match: true,
        hit: SearchHitView {
            path: d.path,
            content_path: d.path,
            source_uri: d.source_uri,
            title,
            heading: None,
            line_start: None,
            location: None,
            snippet: title,
            match_count: 1,
            backend: Some(SearchBackend::Direct),
            score_micros: None,
        },
    }
}

fn clone_text(o: &Option<String>) -> (r: Option<String>)
    ensures
        crate::extract::opt_view(r) == crate::extract::opt_view(*o),
{
    match o {
        Some(s) => Some(s.clone()),
        None => None,
    }
}

pub open spec fn opt_hit(r: Option<RankedHit>) -> Option<HitView> {
    match r {
        Some(h) => Some(ranked_view(h)),
        None => None,
    }
}

fn block_hit_exec(
    document: &SearchDocument,
    doc_title: &String,
    b: ExtractedBlock,
    content_path: &String,
    phrase: &[char],
    terms: &Vec<Vec<char>>,
    mode: SearchMatchMode,
) -> (r: Option<RankedHit>)
    requires
        phrase@.len() > 0,
    ensures
        opt_hit(r) == block_hit(
            document.path@,
            crate::extract::opt_view(document.source_uri),
            doc_title@,
            block_view(b),
            content_path@,
            phrase@,
            vviews(terms@),
            mode,
        ),
{
    let (count, distinct, title_match) = block_numbers_exec(&b.text, &b.heading, doc_title, phrase, terms, mode);
    if count == 0 && distinct == 0 {
        return None;
    }
    let title = match &b.heading {
        Some(h) => h.clone(),
        None => doc_title.clone(),
    };
    let snip = snippet(b.text.as_str(), phrase, mode);
    let hit = SearchHit {
        path: document.path.clone(),
        content_path: content_path.clone(),
        source_uri: clone_text(&document.source_uri),
        title,
        heading: b.heading,
        line_start: b.line_start,
        location: b.location,
        snippet: snip,
        match_count: count,
        backend: Some(SearchBackend::Direct),
        score_micros: None,
    };
    Some(RankedHit { count, distinct, title_match, hit })
}

fn push_block_hits(
    out: &mut Vec<RankedHit>,
    document: &SearchDocument,
    doc_title: &String,
    blocks: Vec<ExtractedBlock>,
    content_path: &String,
    phrase: &[char],
    terms: &Vec<Vec<char>>,
    mode: SearchMatchMode,
)
    requires
        phrase@.len() > 0,
    ensures
        ranked_views(final(out)@) == ranked_views(old(out)@) + block_hits(
            document.path@,
            crate::extract::opt_view(document.source_uri),
            doc_title@,
            block_views(blocks@),
            content_path@,
            phrase@,
            vviews(terms@),
            mode,
        ),
{
    let ghost start = ranked_views(out@);
    let ghost bv = block_views(blocks@);
    let ghost path = document.path@;
    let ghost uri = crate::extract::opt_view(document.source_uri);
    let mut blocks = blocks;
    let n = blocks.len();
    let mut i: usize = 0;
    proof {
        assert(bv.take(0) =~= Seq::<BlockView>::empty());
        assert(start + Seq::<HitView>::empty() =~= start);
    }
    while blocks.len() > 0
        invariant
            i + blocks@.len() == n,
            n == bv.len(),
            phrase@.len() > 0,
            path == document.path@,
            uri == crate::extract::opt_view(document.source_uri),
            forall|k: int| 0 <= k < blocks@.len() ==> block_view(#[trigger] blocks@[k]) == bv[i + k],
            ranked_views(out@) == start + block_hits(path, uri, doc_title@, bv.take(i as int), content_path@, phrase@, vviews(terms@), mode),
        decreases blocks@.len(),
    {
        let ghost old_blocks = blocks@;
        let b = blocks.remove(0);
        proof {
            assert(block_view(b) == bv[i as int]);
            assert forall|k: int| 0 <= k < blocks@.len() implies block_view(#[trigger] blocks@[k]) == bv[i + 1 + k] by {
                assert(blocks@[k] == old_blocks[k + 1]);
            }
            assert(bv.take(i + 1).drop_last() =~= bv.take(i as int));
            assert(bv.take(i + 1).last() == bv[i as int]);
        }
        let r = block_hit_exec(document, doc_title, b, content_path, phrase, terms, mode);
        let ghost prev = ranked_views(out@);
        let ghost acc = block_hits(path, uri, doc_title@, bv.take(i as int), content_path@, phrase@, vviews(terms@), mode);
        match r {
            Some(h) => {
                out.push(h);
                proof {
                    assert(ranked_views(out@) =~= prev.push(ranked_view(h)));
                    assert(start + acc.push(ranked_view(h)) =~= (start + acc).push(ranked_view(h)));
                }
            },
            None => {},
        }
        i = i + 1;
    }
    proof {
        assert(bv.take(n as int) =~= bv);
    }
}

fn annotation_blocks_exec(a: &String) -> (out: Vec<ExtractedBlock>)
    requires
        a@.len() < usize::MAX,
    ensures
        block_views(out@) == annotation_blocks(a@),
{
    let chars = chars_of(a.as_str());
    if crate::text::contains_char(chars.as_slice(), '\0') {
        let out: Vec<ExtractedBlock> = Vec::new();
        proof {
            assert(block_views(out@) =~= Seq::<BlockView>::empty());
        }
        out
    } else {
        crate::extract::markdown_blocks(a.as_str())
    }
}

/// The hits of one document, given what was extracted from its bytes (see
/// `document_hits_of`).
pub fn document_hits(
    document: &SearchDocument,
    extracted: ExtractedDocument,
    phrase: &[char],
    terms: &Vec<Vec<char>>,
    mode: SearchMatchMode,
) -> (out: Vec<RankedHit>)
    requires
        phrase@.len() > 0,
        match document.annotation {
            Some(a) => a@.len() < usize::MAX,
            None => true,
        },
    ensures
        ranked_views(out@) == document_hits_of(
            search_doc_view(*document),
            document_view(extracted),
            phrase@,
            vviews(terms@),
            mode,
        ),
{
    let ghost ex = document_view(extracted);
    let ghost d = search_doc_view(*document);
    let title = match &extracted.title {
        Some(t) => t.clone(),
        None => document.title.clone(),
    };
    proof {
        assert(title@ == doc_title_of(d, ex));
    }
    let mut out: Vec<RankedHit> = Vec::new();
    proof {
        assert(ranked_views(out@) =~= Seq::<HitView>::empty());
    }
    push_block_hits(&mut out, document, &title, extracted.blocks, &document.content_path, phrase, terms, mode);
    let ghost first = ranked_views(out@);
    match &document.annotation {
        Some(a) => {
            let ab = annotation_blocks_exec(a);
            push_block_hits(&mut out, document, &title, ab, &document.path, phrase, terms, mode);
        },
        None => {
            proof {
                assert(first + Seq::<HitView>::empty() =~= first);
            }
        },
    }
    proof {
        assert(Seq::<HitView>::empty() + first =~= first);
    }
    if mode == SearchMatchMode::Relevant && out.len() == 0 {
        let folded = chars_of(lowercase(title.as_str()).as_str());
        if contains_exec(folded.as_slice(), phrase) {
            let n_terms = terms.len() as u64;
            let hit = SearchHit {
                path: document.path.clone(),
                content_path: document.path.clone(),
                source_uri: clone_text(&document.source_uri),
                title: title.clone(),
                heading: None,
                line_start: None,
                location: None,
                snippet: title,
                match_count: 1,
                backend: Some(SearchBackend::Direct),
                score_micros: None,
            };
            let ghost before = ranked_views(out@);
            out.push(RankedHit { count: 1, distinct: n_terms, title_match: true, hit });
            proof {
                assert(ranked_views(out@) =~= before.push(title_hit(d, doc_title_of(d, ex), vviews(terms@).len())));
            }
        }
    }
    out
}

/// The hits of a scope's documents, document by document, each read with
/// what was extracted from it.
pub open spec fn scope_hits(
    ds: Seq<SearchDocView>,
    exs: Seq<DocumentView>,
    phrase: Seq<char>,
    terms: Seq<Seq<char>>,
    mode: SearchMatchMode,
) -> Seq<HitView>
    decreases ds.len(),
{
    if ds.len() == 0 {
        Seq::empty()
    } else {
        scope_hits(ds.drop_last(), exs.drop_last(), phrase, terms, mode) + document_hits_of(
            ds.last(),
            exs.last(),
            phrase,
            terms,
            mode,
        )
    }
}

/// Each document's extraction is one its media's extractor may give.
pub open spec fn extractions_agree(ds: Seq<SearchDocView>, exs: Seq<DocumentView>) -> bool {
    &&& exs.len() == ds.len()
    &&& forall|k: int|
        0 <= k < ds.len() ==> crate::extract::extraction_agrees(ds[k].media, ds[k].bytes, #[trigger] exs[k])
}

pub open spec fn search_doc_views(v: Seq<SearchDocument>) -> Seq<SearchDocView> {
    v.map_values(|d: SearchDocument| search_doc_view(d))
}

/// What a scope's search shows: its hits ranked (see `ranked`), the first
/// `limit` of them.
pub open spec fn scope_results(
    ds: Seq<SearchDocView>,
    exs: Seq<DocumentView>,
    phrase: Seq<char>,
    limit: nat,
    mode: SearchMatchMode,
) -> Seq<SearchHitView> {
    let r = ranked(scope_hits(ds, exs, phrase, distinct_words(words(phrase)), mode));
    let kept = if r.len() > limit { r.take(limit as int) } else { r };
    kept.map_values(|h: HitView| h.hit)
}

/// Search the documents of a scope for a phrase: every block that holds it
/// (or, when relevant, one of its words) is a hit; hits are ranked and cut to
/// `limit`. Each document is read as its extractor reads it (see
/// `extraction_agrees`).
pub fn search_scope(documents: Vec<SearchDocument>, phrase: &str, limit: usize, mode: SearchMatchMode) -> (out: Vec<
    SearchHit,
>)
    requires
        phrase@.len() > 0,
        forall|k: int|
            0 <= k < documents@.len() ==> {
                &&& (#[trigger] documents@[k]).bytes@.len() < usize::MAX
                &&& match documents@[k].annotation {
                    Some(a) => a@.len() < usize::MAX,
                    None => true,
                }
            },
    ensures
        exists|exs: Seq<DocumentView>|
            #[trigger] extractions_agree(search_doc_views(documents@), exs) && search_hit_views(out@)
                == scope_results(search_doc_views(documents@), exs, phrase@, limit as nat, mode),
{
    let p = chars_of(phrase);
    let terms = phrase_terms(p.as_slice());
    let ghost dv = search_doc_views(documents@);
    let ghost mut exs: Seq<DocumentView> = Seq::empty();
    let mut hits: Vec<RankedHit> = Vec::new();
    let mut i: usize = 0;
    proof {
        assert(dv.take(0) =~= Seq::<SearchDocView>::empty());
        assert(ranked_views(hits@) =~= Seq::<HitView>::empty());
    }
    while i < documents.len()
        invariant
            i <= documents@.len(),
            dv == search_doc_views(documents@),
            p@ == phrase@,
            p@.len() > 0,
            vviews(terms@) == distinct_words(words(phrase@)),
            exs.len() == i,
            forall|k: int|
                0 <= k < documents@.len() ==> {
                    &&& (#[trigger] documents@[k]).bytes@.len() < usize::MAX
                    &&& match documents@[k].annotation {
                        Some(a) => a@.len() < usize::MAX,
                        None => true,
                    }
                },
            forall|k: int| 0 <= k < i ==> crate::extract::extraction_agrees(dv[k].media, dv[k].bytes, #[trigger] exs[k]),
            ranked_views(hits@) == scope_hits(dv.take(i as int), exs, phrase@, vviews(terms@), mode),
        decreases documents@.len() - i,
    {
        let d = &documents[i];
        let bytes = d.bytes.clone();
        proof {
            assert(bytes@ =~= d.bytes@);
            assert(dv[i as int] == search_doc_view(*d));
        }
        let extracted = extract_bytes(d.media, bytes);
        let found = document_hits(d, extracted, p.as_slice(), &terms, mode);
        let ghost before = ranked_views(hits@);
        let ghost e = document_view(extracted);
        let mut found = found;
        hits.append(&mut found);
        proof {
            assert(ranked_views(hits@) =~= before + document_hits_of(dv[i as int], e, phrase@, vviews(terms@), mode));
            assert(dv.take(i + 1).drop_last() =~= dv.take(i as int));
            assert(dv.take(i + 1).last() == dv[i as int]);
            assert(exs.push(e).drop_last() =~= exs);
            assert(exs.push(e).last() == e);
            exs = exs.push(e);
        }
        i = i + 1;
    }
    proof {
        assert(dv.take(documents@.len() as int) =~= dv);
    }
    let ranked_hits = rank_hits(hits, limit);
    let ghost rv = ranked_views(ranked_hits@);
    let mut rest = ranked_hits;
    let mut out: Vec<SearchHit> = Vec::new();
    let n = rest.len();
    let mut j: usize = 0;
    proof {
        assert(search_hit_views(out@) =~= Seq::<SearchHitView>::empty());
        assert(rv.take(0).map_values(|h: HitView| h.hit) =~= Seq::<SearchHitView>::empty());
    }
    while rest.len() > 0
        invariant
            j + rest@.len() == n,
            n == rv.len(),
            forall|k: int| 0 <= k < rest@.len() ==> ranked_view(#[trigger] rest@[k]) == rv[j + k],
            search_hit_views(out@) == rv.take(j as int).map_values(|h: HitView| h.hit),
        decreases rest@.len(),
    {
        let ghost old_rest = rest@;
        let r = rest.remove(0);
        proof {
            assert(ranked_view(r) == rv[j as int]);
            assert forall|k: int| 0 <= k < rest@.len() implies ranked_view(#[trigger] rest@[k]) == rv[j + 1 + k] by {
                assert(rest@[k] == old_rest[k + 1]);
            }
        }
        let ghost before = out@;
        out.push(r.hit);
        proof {
            assert(search_hit_views(out@) =~= search_hit_views(before).push(search_hit_view(r.hit)));
            assert(rv.take(j + 1).map_values(|h: HitView| h.hit) =~= rv.take(j as int).map_values(|h: HitView| h.hit).push(
                rv[j as int].hit,
            ));
        }
        j = j + 1;
    }
    proof {
        assert(rv.take(n as int) =~= rv);
        assert(extractions_agree(dv, exs));
    }
    out
}

/// A Wiki page as a document to search: only Markdown files (by a `.md`
/// ending in any case) are searched, titled by their file name.
pub fn wiki_document(path: &str, bytes: Vec<u8>) -> (d: Option<SearchDocument>)
    ensures
        match d {
            Some(doc) => {
                &&& crate::text::ends_with(crate::text::ascii_lower(path@), ".md"@)
                &&& search_doc_view(doc) == (SearchDocView {
                    path: path@,
                    content_path: path@,
                    source_uri: None,
                    title: crate::text::after_last(path@, '/'),
                    media: MediaType::Markdown,
                    bytes: bytes@,
                    annotation: None,
                })
            },
            None => !crate::text::ends_with(crate::text::ascii_lower(path@), ".md"@),
        },
{
    let pc = chars_of(path);
    let lower = crate::text::to_ascii_lower(pc.as_slice());
    let ext = chars_of(".md");
    if !crate::text::ends_with_exec(lower.as_slice(), ext.as_slice()) {
        return None;
    }
    let title = string_of(crate::text::after_last_exec(pc.as_slice(), '/').as_slice());
    Some(SearchDocument {
        path: path.to_owned(),
        content_path: path.to_owned(),
        source_uri: None,
        title,
        media: MediaType::Markdown,
        bytes,
        annotation: None,
    })
}

/// A captured source as a document to search, after checking that its
/// object's bytes still hash to the recorded SHA-256: a mismatch is an
/// integrity error naming the object.
pub fn source_document(
    record_path: &str,
    object_path: &str,
    exact_uri: &str,
    title: &str,
    media: MediaType,
    sha256: &str,
    bytes: Vec<u8>,
    annotation: &str,
) -> (r: Result<SearchDocument, crate::error::KbError>)
    ensures
        match r {
            Ok(doc) => {
                &&& crate::source_io::hex_chars(crate::source_io::sha256_digest(bytes@)) == sha256@
                &&& search_doc_view(doc) == (SearchDocView {
                    path: record_path@,
                    content_path: object_path@,
                    source_uri: Some(exact_uri@),
                    title: title@,
                    media,
                    bytes: bytes@,
                    annotation: Some(annotation@),
                })
            },
            Err(e) => {
                &&& crate::source_io::hex_chars(crate::source_io::sha256_digest(bytes@)) != sha256@
                &&& e.code == crate::error::ErrorCode::SourceIntegrityFailed
                &&& e.message@ == "Source object hash mismatch: "@ + object_path@
            },
        },
{
    let h = crate::source_io::hash(bytes.as_slice());
    let hc = chars_of(h.as_str());
    let sc = chars_of(sha256);
    if !equal_chars(hc.as_slice(), sc.as_slice()) {
        return Err(crate::source_verify::integrity(object_path));
    }
    Ok(SearchDocument {
        path: record_path.to_owned(),
        content_path: object_path.to_owned(),
        source_uri: Some(exact_uri.to_owned()),
        title: title.to_owned(),
        media,
        bytes,
        annotation: Some(annotation.to_owned()),
    })
}

/// Where a search looks.
#[derive(Debug, Clone, Copy, PartialEq, Eq, Structural)]
pub enum SearchScope {
    Wiki,
    Sources,
    All,
}

/// The scopes a search covers, in order: both for `All`.
pub open spec fn scopes_of(scope: SearchScope) -> Seq<SearchScope> {
    if scope == SearchScope::All {
        seq![SearchScope::Wiki, SearchScope::Sources]
    } else {
        seq![scope]
    }
}

/// The scopes a search covers (see `scopes_of`).
pub fn search_scopes(scope: SearchScope) -> (out: Vec<SearchScope>)
    ensures
        out@ == scopes_of(scope),
{
    let mut out: Vec<SearchScope> = Vec::new();
    if scope == SearchScope::All {
        out.push(SearchScope::Wiki);
        out.push(SearchScope::Sources);
    } else {
        out.push(scope);
    }
    proof {
        assert(out@ =~= scopes_of(scope));
    }
    out
}

/// The phrase a search matches: the query trimmed, and case-folded for a
/// relevance search.
pub open spec fn search_phrase(query: Seq<char>, mode: SearchMatchMode) -> Seq<char> {
    if mode == SearchMatchMode::Exact {
        crate::text::trim(query)
    } else {
        lowercase_chars(crate::text::trim(query))
    }
}

/// The phrase a search matches (see `search_phrase`).
pub fn query_phrase(query: &str, mode: SearchMatchMode) -> (out: String)
    ensures
        out@ == search_phrase(query@, mode),
{
    let t = string_of(crate::text::trimmed(chars_of(query).as_slice()).as_slice());
    if mode == SearchMatchMode::Exact {
        t
    } else {
        lowercase(t.as_str())
    }
}

/// What a relevance search does when its index failed: a stale index gives
/// way to direct search with a warning, unless that backend was demanded;
/// any other failure stands.
pub fn index_fallback(error: KbError, strict: bool) -> (r: Result<String, KbError>)
    ensures
        r is Ok <==> error.code == ErrorCode::IndexStale && !strict,
        r matches Ok(w) ==> w@ == error.message@ + " Results use direct search."@,
        r matches Err(e) ==> e == error,
{
    if error.code == ErrorCode::IndexStale && !strict {
        let mut w = chars_of(error.message.as_str());
        crate::text::append_chars(&mut w, chars_of(" Results use direct search.").as_slice());
        Ok(string_of(w.as_slice()))
    } else {
        Err(error)
    }
}

/// A hit of a direct search: its `match_count` is its count of matches,
/// its backend is the direct one, and it has no score.
pub open spec fn direct_hit(h: HitView) -> bool {
    &&& h.hit.match_count == h.count as u64
    &&& h.hit.backend == Some(SearchBackend::Direct)
    &&& h.hit.score_micros is None
}

proof fn lemma_slot_bounds(r: Seq<HitView>, x: HitView)
    ensures
        0 <= hit_slot(r, x) <= r.len(),
        forall|k: int| 0 <= k < hit_slot(r, x) ==> !ranks_before(x, #[trigger] r[k]),
        hit_slot(r, x) < r.len() ==> ranks_before(x, r[hit_slot(r, x)]),
    decreases r.len(),
{
    if r.len() > 0 && !ranks_before(x, r[0]) {
        lemma_slot_bounds(r.drop_first(), x);
        assert forall|k: int| 0 <= k < hit_slot(r, x) implies !ranks_before(x, #[trigger] r[k]) by {
            if k > 0 {
                assert(r[k] == r.drop_first()[k - 1]);
            }
        }
    }
}

/// `a` comes no later than `b` by matches, then distinct terms, then a
/// title match, then path, then line.
pub open spec fn keys_no_later(a: HitView, b: HitView) -> bool {
    ||| a.count > b.count
    ||| a.count == b.count && a.distinct > b.distinct
    ||| a.count == b.count && a.distinct == b.distinct && a.title_match && !b.title_match
    ||| a.count == b.count && a.distinct == b.distinct && a.title_match == b.title_match
        && crate::sync::chars_lt(a.hit.path, b.hit.path)
    ||| a.count == b.count && a.distinct == b.distinct && a.title_match == b.title_match && a.hit.path == b.hit.path
        && !line_lt(b.hit.line_start, a.hit.line_start)
}

proof fn lemma_keys_transitive(a: HitView, b: HitView, c: HitView)
    requires
        keys_no_later(a, b),
        keys_no_later(b, c),
    ensures
        keys_no_later(a, c),
{
    if a.count == b.count && b.count == c.count && a.distinct == b.distinct && b.distinct == c.distinct
        && a.title_match == b.title_match && b.title_match == c.title_match {
        if crate::sync::chars_lt(a.hit.path, b.hit.path) && crate::sync::chars_lt(b.hit.path, c.hit.path) {
            crate::sync::lemma_chars_lt_transitive(a.hit.path, b.hit.path, c.hit.path);
        }
    }
}

proof fn lemma_not_before_keys(x: HitView, r: HitView)
    ensures
        !ranks_before(x, r) ==> keys_no_later(r, x),
        ranks_before(x, r) ==> keys_no_later(x, r),
{
    crate::review::lemma_chars_lt_total(x.hit.path, r.hit.path);
    if crate::sync::chars_lt(x.hit.path, r.hit.path) {
        crate::sync::lemma_chars_lt_asymmetric(x.hit.path, r.hit.path);
    }
}

proof fn lemma_ranked_keys(s: Seq<HitView>)
    ensures
        ranked(s).len() == s.len(),
        forall|i: int, j: int| 0 <= i < j < ranked(s).len() ==> keys_no_later(#[trigger] ranked(s)[i], #[trigger] ranked(s)[j]),
    decreases s.len(),
{
    if s.len() > 0 {
        let r = ranked(s.drop_last());
        let x = s.last();
        lemma_ranked_keys(s.drop_last());
        lemma_slot_bounds(r, x);
        let slot = hit_slot(r, x);
        let out = r.insert(slot, x);
        assert(ranked(s) == out);
        assert forall|i: int, j: int| 0 <= i < j < out.len() implies keys_no_later(#[trigger] out[i], #[trigger] out[j]) by {
            if j < slot {
                assert(out[i] == r[i] && out[j] == r[j]);
            } else if j == slot {
                assert(out[i] == r[i]);
                assert(!ranks_before(x, r[i]));
                lemma_not_before_keys(x, r[i]);
            } else if i == slot {
                assert(out[j] == r[j - 1]);
                assert(ranks_before(x, r[slot]));
                lemma_not_before_keys(x, r[slot]);
                if j - 1 > slot {
                    assert(keys_no_later(r[slot], r[j - 1]));
                    lemma_keys_transitive(x, r[slot], r[j - 1]);
                }
            } else if i < slot {
                assert(out[i] == r[i] && out[j] == r[j - 1]);
            } else {
                assert(out[i] == r[i - 1] && out[j] == r[j - 1]);
            }
        }
    }
}

proof fn lemma_ranked_sorted(s: Seq<HitView>)
    ensures
        ranked(s).len() == s.len(),
        forall|i: int, j: int| 0 <= i < j < ranked(s).len() ==> ranked(s)[i].count >= ranked(s)[j].count,
        (forall|k: int| 0 <= k < s.len() ==> direct_hit(#[trigger] s[k]))
            ==> forall|k: int| 0 <= k < ranked(s).len() ==> direct_hit(#[trigger] ranked(s)[k]),
    decreases s.len(),
{
    if s.len() > 0 {
        let r = ranked(s.drop_last());
        let x = s.last();
        lemma_ranked_sorted(s.drop_last());
        lemma_slot_bounds(r, x);
        let slot = hit_slot(r, x);
        let out = r.insert(slot, x);
        assert(ranked(s) == out);
        assert forall|i: int, j: int| 0 <= i < j < out.len() implies out[i].count >= out[j].count by {
            if j < slot {
                assert(out[i] == r[i] && out[j] == r[j]);
            } else if j == slot {
                assert(out[i] == r[i]);
                assert(!ranks_before(x, r[i]));
            } else if i == slot {
                assert(out[j] == r[j - 1]);
                assert(ranks_before(x, r[slot]));
                if j - 1 > slot {
                    assert(r[slot].count >= r[j - 1].count);
                }
            } else if i < slot {
                assert(out[i] == r[i] && out[j] == r[j - 1]);
            } else {
                assert(out[i] == r[i - 1] && out[j] == r[j - 1]);
            }
        }
        if forall|k: int| 0 <= k < s.len() ==> direct_hit(#[trigger] s[k]) {
            assert forall|k: int| 0 <= k < s.drop_last().len() implies direct_hit(#[trigger] s.drop_last()[k]) by {
                assert(s.drop_last()[k] == s[k]);
            }
            assert(direct_hit(s[s.len() - 1]));
            assert forall|k: int| 0 <= k < out.len() implies direct_hit(#[trigger] out[k]) by {
                if k < slot {
                    assert(out[k] == r[k]);
                } else if k > slot {
                    assert(out[k] == r[k - 1]);
                }
            }
        }
    }
}

proof fn lemma_block_hits_direct_hit(
    path: Seq<char>,
    source_uri: Option<Seq<char>>,
    doc_title: Seq<char>,
    bs: Seq<BlockView>,
    content_path: Seq<char>,
    phrase: Seq<char>,
    terms: Seq<Seq<char>>,
    mode: SearchMatchMode,
)
    ensures
        forall|k: int| 0 <= k < block_hits(path, source_uri, doc_title, bs, content_path, phrase, terms, mode).len()
            ==> direct_hit(#[trigger] block_hits(path, source_uri, doc_title, bs, content_path, phrase, terms, mode)[k]),
    decreases bs.len(),
{
    if bs.len() > 0 {
        lemma_block_hits_direct_hit(path, source_uri, doc_title, bs.drop_last(), content_path, phrase, terms, mode);
        let r = block_hits(path, source_uri, doc_title, bs.drop_last(), content_path, phrase, terms, mode);
        let all = block_hits(path, source_uri, doc_title, bs, content_path, phrase, terms, mode);
        assert forall|k: int| 0 <= k < all.len() implies direct_hit(#[trigger] all[k]) by {
            if k < r.len() {
                assert(all[k] == r[k]);
            }
        }
    }
}

proof fn lemma_scope_hits_direct_hit(
    ds: Seq<SearchDocView>,
    exs: Seq<DocumentView>,
    phrase: Seq<char>,
    terms: Seq<Seq<char>>,
    mode: SearchMatchMode,
)
    ensures
        forall|k: int| 0 <= k < scope_hits(ds, exs, phrase, terms, mode).len()
            ==> direct_hit(#[trigger] scope_hits(ds, exs, phrase, terms, mode)[k]),
    decreases ds.len(),
{
    if ds.len() > 0 {
        lemma_scope_hits_direct_hit(ds.drop_last(), exs.drop_last(), phrase, terms, mode);
        let before = scope_hits(ds.drop_last(), exs.drop_last(), phrase, terms, mode);
        let d = ds.last();
        let ex = exs.last();
        let title = doc_title_of(d, ex);
        lemma_block_hits_direct_hit(d.path, d.source_uri, title, ex.blocks, d.content_path, phrase, terms, mode);
        match d.annotation {
            Some(a) => lemma_block_hits_direct_hit(d.path, d.source_uri, title, annotation_blocks(a), d.path, phrase, terms, mode),
            None => {},
        }
        let first = block_hits(d.path, d.source_uri, title, ex.blocks, d.content_path, phrase, terms, mode);
        let second = match d.annotation {
            Some(a) => block_hits(d.path, d.source_uri, title, annotation_blocks(a), d.path, phrase, terms, mode),
            None => Seq::empty(),
        };
        let hs = first + second;
        assert forall|k: int| 0 <= k < hs.len() implies direct_hit(#[trigger] hs[k]) by {
            if k < first.len() {
                assert(hs[k] == first[k]);
            } else {
                assert(hs[k] == second[k - first.len()]);
            }
        }
        let mine = document_hits_of(d, ex, phrase, terms, mode);
        assert forall|k: int| 0 <= k < mine.len() implies direct_hit(#[trigger] mine[k]) by {
            if k < hs.len() {
                assert(mine[k] == hs[k]);
            }
        }
        let all = scope_hits(ds, exs, phrase, terms, mode);
        assert(all == before + mine);
        assert forall|k: int| 0 <= k < all.len() implies direct_hit(#[trigger] all[k]) by {
            if k < before.len() {
                assert(all[k] == before[k]);
            } else {
                assert(all[k] == mine[k - before.len()]);
            }
        }
    }
}

/// All hits of a scope in rank order (before the cut to the limit).
pub open spec fn scope_ranking(
    ds: Seq<SearchDocView>,
    exs: Seq<DocumentView>,
    phrase: Seq<char>,
    mode: SearchMatchMode,
) -> Seq<HitView> {
    ranked(scope_hits(ds, exs, phrase, distinct_words(words(phrase)), mode))
}

/// Search results are the first `limit` hits of the scope's ranking (all of
/// them when there are fewer); along the ranking no hit has more matches
/// than the one before it, of two hits with as many matches the earlier
/// holds at least as many distinct phrase terms, of those with as many terms
/// too a title match comes first, and then hits come by path and by line;
/// each hit is a direct one (see `direct_hit`).
pub proof fn search_results_ranked(
    ds: Seq<SearchDocView>,
    exs: Seq<DocumentView>,
    phrase: Seq<char>,
    limit: nat,
    mode: SearchMatchMode,
)
    ensures
        scope_results(ds, exs, phrase, limit, mode).len() <= limit,
        scope_results(ds, exs, phrase, limit, mode).len() == if scope_ranking(ds, exs, phrase, mode).len() > limit {
            limit as int
        } else {
            scope_ranking(ds, exs, phrase, mode).len() as int
        },
        forall|i: int| 0 <= i < scope_results(ds, exs, phrase, limit, mode).len()
            ==> #[trigger] scope_results(ds, exs, phrase, limit, mode)[i] == scope_ranking(ds, exs, phrase, mode)[i].hit,
        forall|i: int, j: int| 0 <= i < j < scope_ranking(ds, exs, phrase, mode).len()
            ==> #[trigger] scope_ranking(ds, exs, phrase, mode)[i].count >= #[trigger] scope_ranking(ds, exs, phrase, mode)[j].count,
        forall|k: int| 0 <= k < scope_ranking(ds, exs, phrase, mode).len()
            ==> direct_hit(#[trigger] scope_ranking(ds, exs, phrase, mode)[k]),
        forall|i: int, j: int| 0 <= i < j < scope_ranking(ds, exs, phrase, mode).len()
            && #[trigger] scope_ranking(ds, exs, phrase, mode)[i].count == #[trigger] scope_ranking(ds, exs, phrase, mode)[j].count
            ==> scope_ranking(ds, exs, phrase, mode)[i].distinct >= scope_ranking(ds, exs, phrase, mode)[j].distinct,
        forall|i: int, j: int| 0 <= i < j < scope_ranking(ds, exs, phrase, mode).len()
            && #[trigger] scope_ranking(ds, exs, phrase, mode)[i].count == #[trigger] scope_ranking(ds, exs, phrase, mode)[j].count
            && scope_ranking(ds, exs, phrase, mode)[i].distinct == scope_ranking(ds, exs, phrase, mode)[j].distinct
            && scope_ranking(ds, exs, phrase, mode)[j].title_match
            ==> scope_ranking(ds, exs, phrase, mode)[i].title_match,
        forall|i: int, j: int| 0 <= i < j < scope_ranking(ds, exs, phrase, mode).len()
            && #[trigger] scope_ranking(ds, exs, phrase, mode)[i].count == #[trigger] scope_ranking(ds, exs, phrase, mode)[j].count
            && scope_ranking(ds, exs, phrase, mode)[i].distinct == scope_ranking(ds, exs, phrase, mode)[j].distinct
            && scope_ranking(ds, exs, phrase, mode)[i].title_match == scope_ranking(ds, exs, phrase, mode)[j].title_match
            ==> !crate::sync::chars_lt(scope_ranking(ds, exs, phrase, mode)[j].hit.path, scope_ranking(ds, exs, phrase, mode)[i].hit.path)
                && (scope_ranking(ds, exs, phrase, mode)[i].hit.path == scope_ranking(ds, exs, phrase, mode)[j].hit.path ==> !line_lt(
                scope_ranking(ds, exs, phrase, mode)[j].hit.line_start,
                scope_ranking(ds, exs, phrase, mode)[i].hit.line_start,
            )),
{
    let hits = scope_hits(ds, exs, phrase, distinct_words(words(phrase)), mode);
    lemma_ranked_sorted(hits);
    lemma_ranked_keys(hits);
    let r = ranked(hits);
    assert forall|i: int, j: int| 0 <= i < j < r.len() && #[trigger] r[i].count == #[trigger] r[j].count
        && r[i].distinct == r[j].distinct && r[i].title_match == r[j].title_match
        implies !crate::sync::chars_lt(r[j].hit.path, r[i].hit.path)
            && (r[i].hit.path == r[j].hit.path ==> !line_lt(r[j].hit.line_start, r[i].hit.line_start)) by {
        assert(keys_no_later(r[i], r[j]));
        crate::sync::lemma_chars_lt_irreflexive(r[i].hit.path);
        if crate::sync::chars_lt(r[i].hit.path, r[j].hit.path) {
            crate::sync::lemma_chars_lt_asymmetric(r[i].hit.path, r[j].hit.path);
        }
    }
    lemma_scope_hits_direct_hit(ds, exs, phrase, distinct_words(words(phrase)), mode);
}

} // verus!
