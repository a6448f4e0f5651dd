//! Lint of Wiki Markdown: where links lead, and what the findings about
//! links, supersession, cited sources and orphaned concepts are.
use vstd::prelude::*;
use vstd::utf8::{decode_utf8, encode_utf8, valid_utf8};
use crate::bm25::{ascii_alphanumeric, is_ascii_alphanumeric};
use crate::text::{
    chars_of, contains_char, contains_seq, equal_chars, find_char, index_of, join, join_chars, occurs_at, slice_vec, split_char,
    split_on, starts_with, starts_with_exec, string_of, trim, trimmed, vviews,
};

verus! {

/// The value of one hexadecimal digit byte.
pub open spec fn hex_digit_value(b: u8) -> Option<u8> {
    if 48 <= b <= 57 {
        Some((b - 48) as u8)
    } else if 97 <= b <= 102 {
        Some((b - 97 + 10) as u8)
    } else if 65 <= b <= 70 {
        Some((b - 65 + 10) as u8)
    } else {
        None
    }
}

/// The value of a hexadecimal digit byte, in either case.
pub fn hex_value(value: u8) -> (r: Option<u8>)
    ensures
        r == hex_digit_value(value),
{
    if 48 <= value && value <= 57 {
        Some(value - 48)
    } else if 97 <= value && value <= 102 {
        Some(value - 97 + 10)
    } else if 65 <= value && value <= 70 {
        Some(value - 65 + 10)
    } else {
        None
    }
}

/// Bytes with each `%` and two hexadecimal digits replaced by the byte they
/// spell; a `%` without two digits after it spoils the whole.
pub open spec fn percent_bytes(b: Seq<u8>) -> Option<Seq<u8>>
    decreases b.len(),
{
    if b.len() == 0 {
        Some(Seq::empty())
    } else if b[0] == 37 {
        if b.len() < 3 {
            None
        } else {
            match (hex_digit_value(b[1]), hex_digit_value(b[2])) {
                (Some(h), Some(l)) => match percent_bytes(b.skip(3)) {
                    Some(r) => Some(seq![(h * 16 + l) as u8] + r),
                    None => None,
                },
                _ => None,
            }
        }
    } else {
        match percent_bytes(b.drop_first()) {
            Some(r) => Some(seq![b[0]] + r),
            None => None,
        }
    }
}

/// Percent-decoding of text: its UTF-8 bytes decoded, when that gives UTF-8.
pub open spec fn percent_decoded(s: Seq<char>) -> Option<Seq<char>> {
    match percent_bytes(encode_utf8(s)) {
        Some(o) => if valid_utf8(o) {
            Some(decode_utf8(o))
        } else {
            None
        },
        None => None,
    }
}

/// Percent-decode text (see `percent_decoded`).
pub fn percent_decode(value: &str) -> (r: Option<String>)
    ensures
        match r {
            Some(t) => percent_decoded(value@) == Some(t@),
            None => percent_decoded(value@) is None,
        },
{
    let bytes = value.as_bytes();
    let ghost b = bytes@;
    let n = bytes.len();
    let mut output: Vec<u8> = Vec::new();
    let mut index: usize = 0;
    proof {
        assert(b.skip(0) =~= b);
        assert(output@ + Seq::<u8>::empty() =~= output@);
    }
    while index < n
        invariant
            index <= n,
            n == b.len(),
            b == bytes@,
            b == encode_utf8(value@),
            percent_bytes(b) == match percent_bytes(b.skip(index as int)) {
                Some(r) => Some(output@ + r),
                None => None::<Seq<u8>>,
            },
        decreases n - index,
    {
        let ghost rest = b.skip(index as int);
        if bytes[index] == 37 {
            if n - index < 3 {
                proof {
                    assert(rest.len() < 3);
                }
                return None;
            }
            let high = hex_value(bytes[index + 1]);
            let low = hex_value(bytes[index + 2]);
            proof {
                assert(rest[1] == b[index + 1]);
                assert(rest[2] == b[index + 2]);
            }
            match (high, low) {
                (Some(h), Some(l)) => {
                    let ghost before = output@;
                    output.push(h * 16 + l);
                    proof {
                        assert(rest.skip(3) =~= b.skip(index + 3));
                        match percent_bytes(b.skip(index + 3)) {
                            Some(r) => {
                                assert(before + (seq![(h * 16 + l) as u8] + r) =~= output@ + r);
                            },
                            None => {},
                        }
                    }
                    index = index + 3;
                },
                _ => {
                    return None;
                },
            }
        } else {
            let ghost before = output@;
            output.push(bytes[index]);
            proof {
                assert(rest.drop_first() =~= b.skip(index + 1));
                assert(rest[0] == b[index as int]);
                match percent_bytes(b.skip(index + 1)) {
                    Some(r) => {
                        assert(before + (seq![b[index as int]] + r) =~= output@ + r);
                    },
                    None => {},
                }
            }
            index = index + 1;
        }
    }
    proof {
        assert(b.skip(n as int) =~= Seq::<u8>::empty());
        assert(output@ + Seq::<u8>::empty() =~= output@);
    }
    crate::text::utf8_text(output.as_slice()).ok()
}

/// A character that may stand in a URI scheme.
pub open spec fn scheme_char(c: char) -> bool {
    ascii_alphanumeric(c) || c == '+' || c == '-' || c == '.'
}

/// The text starts with a URI scheme: a `:` before any `/`, with only scheme
/// characters before it.
pub open spec fn has_uri_scheme(v: Seq<char>) -> bool {
    let colon = index_of(v, ':');
    let slash = index_of(v, '/');
    colon >= 0 && (slash < 0 || colon < slash) && forall|i: int| 0 <= i < colon ==> scheme_char(#[trigger] v[i])
}

/// Whether text starts with a URI scheme (see `has_uri_scheme`).
pub fn has_scheme(v: &[char]) -> (b: bool)
    ensures
        b == has_uri_scheme(v@),
{
    let colon = match find_char(v, ':') {
        Some(c) => c,
        None => {
            proof {
                crate::text::lemma_index_of(v@, ':', v@.len() as int);
            }
            return false;
        },
    };
    proof {
        crate::text::lemma_index_of(v@, ':', colon as int);
    }
    match find_char(v, '/') {
        Some(s) => {
            proof {
                crate::text::lemma_index_of(v@, '/', s as int);
            }
            if s < colon {
                return false;
            }
        },
        None => {
            proof {
                crate::text::lemma_index_of(v@, '/', v@.len() as int);
            }
        },
    }
    let mut i: usize = 0;
    while i < colon
        invariant
            i <= colon,
            colon < v@.len(),
            colon == index_of(v@, ':'),
            index_of(v@, '/') < 0 || colon < index_of(v@, '/'),
            forall|k: int| 0 <= k < i ==> scheme_char(#[trigger] v@[k]),
        decreases colon - i,
    {
        let c = v[i];
        if !(is_ascii_alphanumeric(c) || c == '+' || c == '-' || c == '.') {
            proof {
                assert(!scheme_char(v@[i as int]));
            }
            return false;
        }
        i = i + 1;
    }
    true
}

/// Where a link of a Wiki page leads.
#[derive(Debug, Clone, PartialEq, Eq)]
pub enum LinkTarget {
    /// Off the Vault, or within the page.
    ExternalOrFragment,
    /// Out of the Wiki, or into its stored objects.
    OutsideWiki,
    /// Not decodable as a path.
    Invalid,
    /// A Wiki path.
    Wiki(String),
}

/// Where a link leads, as values.
pub enum TargetView {
    ExternalOrFragment,
    OutsideWiki,
    Invalid,
    Wiki(Seq<char>),
}

pub open spec fn target_view(t: LinkTarget) -> TargetView {
    match t {
        LinkTarget::ExternalOrFragment => TargetView::ExternalOrFragment,
        LinkTarget::OutsideWiki => TargetView::OutsideWiki,
        LinkTarget::Invalid => TargetView::Invalid,
        LinkTarget::Wiki(p) => TargetView::Wiki(p@),
    }
}

/// Text without its leading slashes.
pub open spec fn strip_slashes(s: Seq<char>) -> Seq<char>
    decreases s.len(),
{
    if s.len() > 0 && s[0] == '/' {
        strip_slashes(s.drop_first())
    } else {
        s
    }
}

/// Walk path segments from `start`: empty and `.` segments stay, `..` goes
/// up but never above the first segment (`None`: out of the Wiki), others go
/// down.
pub open spec fn climb(start: Seq<Seq<char>>, segs: Seq<Seq<char>>) -> Option<Seq<Seq<char>>>
    decreases segs.len(),
{
    if segs.len() == 0 {
        Some(start)
    } else {
        match climb(start, segs.drop_last()) {
            None => None,
            Some(acc) => {
                let c = segs.last();
                if c.len() == 0 || c == "."@ {
                    Some(acc)
                } else if c == ".."@ {
                    if acc.len() > 1 {
                        Some(acc.drop_last())
                    } else {
                        None
                    }
                } else {
                    Some(acc.push(c))
                }
            },
        }
    }
}

/// The segments a link starts from: the Wiki root for a rooted link, else
/// the directories of the page that holds it.
pub open spec fn link_start(source: Seq<char>, decoded: Seq<char>) -> Seq<Seq<char>> {
    if decoded.len() > 0 && decoded[0] == '/' {
        seq!["Wiki"@]
    } else {
        let li = crate::archive::last_index(source, '/');
        if li < 0 {
            Seq::empty()
        } else {
            split_on(source.take(li), '/')
        }
    }
}

/// Where a link of the page at `source` leads: fragments, blank links and
/// links with a URI scheme stay off the Wiki; the rest, without fragment and
/// query and percent-decoded, is walked from the page's directory (or the
/// Wiki root for a rooted link) and must stay in the Wiki and out of its
/// `.objects`.
pub open spec fn wiki_target(source: Seq<char>, destination: Seq<char>) -> TargetView {
    if (destination.len() > 0 && destination[0] == '#') || trim(destination).len() == 0 {
        TargetView::ExternalOrFragment
    } else {
        let wq = split_on(split_on(destination, '#')[0], '?')[0];
        if wq.len() == 0 || has_uri_scheme(wq) {
            TargetView::ExternalOrFragment
        } else {
            match percent_decoded(wq) {
                None => TargetView::Invalid,
                Some(d) => if d.contains('\\') {
                    TargetView::Invalid
                } else {
                    match climb(link_start(source, d), split_on(strip_slashes(d), '/')) {
                        None => TargetView::OutsideWiki,
                        Some(cs) => {
                            let j = join(cs, "/"@);
                            if !starts_with(j, "Wiki/"@) || contains_seq(j, "/.objects/"@) {
                                TargetView::OutsideWiki
                            } else {
                                TargetView::Wiki(j)
                            }
                        },
                    }
                },
            }
        }
    }
}

fn strip_slashes_exec(s: &[char]) -> (out: Vec<char>)
    ensures
        out@ == strip_slashes(s@),
{
    let mut i: usize = 0;
    proof {
        assert(s@.skip(0) =~= s@);
    }
    while i < s.len() && s[i] == '/'
        invariant
            i <= s@.len(),
            strip_slashes(s@) == strip_slashes(s@.skip(i as int)),
        decreases s@.len() - i,
    {
        proof {
            assert(s@.skip(i as int).drop_first() =~= s@.skip(i + 1));
        }
        i = i + 1;
    }
    let out = slice_vec(s, i, s.len());
    proof {
        assert(out@ =~= s@.skip(i as int));
    }
    out
}

fn climb_exec(start: Vec<Vec<char>>, segs: &Vec<Vec<char>>) -> (r: Option<Vec<Vec<char>>>)
    ensures
        match r {
            Some(v) => climb(vviews(start@), vviews(segs@)) == Some(vviews(v@)),
            None => climb(vviews(start@), vviews(segs@)) is None,
        },
{
    let ghost st = vviews(start@);
    let dot = chars_of(".");
    let dots = chars_of("..");
    let mut acc = start;
    let mut i: usize = 0;
    let mut out = false;
    proof {
        assert(vviews(segs@).take(0) =~= Seq::<Seq<char>>::empty());
    }
    while i < segs.len() && !out
        invariant
            i <= segs@.len(),
            dot@ == "."@,
            dots@ == ".."@,
            out ==> climb(st, vviews(segs@)) is None,
            !out ==> climb(st, vviews(segs@).take(i as int)) == Some(vviews(acc@)),
        decreases segs@.len() - i,
    {
        proof {
            assert(vviews(segs@).take(i + 1).drop_last() =~= vviews(segs@).take(i as int));
            assert(vviews(segs@).take(i + 1).last() == segs@[i as int]@);
        }
        let seg = &segs[i];
        if seg.len() == 0 || equal_chars(seg.as_slice(), dot.as_slice()) {
        } else if equal_chars(seg.as_slice(), dots.as_slice()) {
            if acc.len() <= 1 {
                proof {
                    lemma_climb_stays_out(st, vviews(segs@), i as int + 1);
                }
                out = true;
            } else {
                let ghost before = acc@;
                acc.pop();
                proof {
                    assert(vviews(acc@) =~= vviews(before).drop_last());
                }
            }
        } else {
            let ghost before = acc@;
            acc.push(seg.clone());
            proof {
                assert(vviews(acc@) =~= vviews(before).push(seg@));
            }
        }
        i = i + 1;
    }
    if out {
        return None;
    }
    proof {
        assert(vviews(segs@).take(segs@.len() as int) =~= vviews(segs@));
    }
    Some(acc)
}

proof fn lemma_climb_stays_out(start: Seq<Seq<char>>, segs: Seq<Seq<char>>, i: int)
    requires
        0 <= i <= segs.len(),
        climb(start, segs.take(i)) is None,
    ensures
        climb(start, segs) is None,
    decreases segs.len() - i,
{
    if i < segs.len() {
        assert(segs.take(i + 1).drop_last() =~= segs.take(i));
        lemma_climb_stays_out(start, segs, i + 1);
    } else {
        assert(segs.take(i) =~= segs);
    }
}

fn first_piece(s: &[char], c: char) -> (out: Vec<char>)
    ensures
        out@ == split_on(s@, c)[0],
{
    let pieces = split_char(s, c);
    proof {
        assert(vviews(pieces@).len() > 0);
        assert(vviews(pieces@)[0] == pieces@[0]@);
    }
    pieces[0].clone()
}

/// Where a link of the page at `source` leads (see `wiki_target`).
pub fn resolve_wiki_target(source: &str, destination: &str) -> (t: LinkTarget)
    ensures
        target_view(t) == wiki_target(source@, destination@),
{
    let d = chars_of(destination);
    if (d.len() > 0 && d[0] == '#') || trimmed(d.as_slice()).len() == 0 {
        return LinkTarget::ExternalOrFragment;
    }
    let wf = first_piece(d.as_slice(), '#');
    let wq = first_piece(wf.as_slice(), '?');
    if wq.len() == 0 || has_scheme(wq.as_slice()) {
        return LinkTarget::ExternalOrFragment;
    }
    let decoded = match percent_decode(string_of(wq.as_slice()).as_str()) {
        Some(t) => t,
        None => {
            return LinkTarget::Invalid;
        },
    };
    let dc = chars_of(decoded.as_str());
    if contains_char(dc.as_slice(), '\\') {
        return LinkTarget::Invalid;
    }
    let start: Vec<Vec<char>> = if dc.len() > 0 && dc[0] == '/' {
        let mut v: Vec<Vec<char>> = Vec::new();
        v.push(chars_of("Wiki"));
        proof {
            assert(vviews(v@) =~= seq!["Wiki"@]);
        }
        v
    } else {
        let sc = chars_of(source);
        match crate::archive::last_index_exec(sc.as_slice(), '/') {
            None => {
                let v: Vec<Vec<char>> = Vec::new();
                proof {
                    assert(vviews(v@) =~= Seq::<Seq<char>>::empty());
                }
                v
            },
            Some(li) => {
                let parent = slice_vec(sc.as_slice(), 0, li);
                proof {
                    assert(parent@ =~= source@.take(li as int));
                }
                split_char(parent.as_slice(), '/')
            },
        }
    };
    let rest = strip_slashes_exec(dc.as_slice());
    let segs = split_char(rest.as_slice(), '/');
    let cs = match climb_exec(start, &segs) {
        Some(cs) => cs,
        None => {
            return LinkTarget::OutsideWiki;
        },
    };
    let sep = chars_of("/");
    let j = join_chars(&cs, sep.as_slice());
    let wiki = chars_of("Wiki/");
    let objects = chars_of("/.objects/");
    let inside = starts_with_exec(j.as_slice(), wiki.as_slice());
    let stored = match crate::text::find_from(j.as_slice(), objects.as_slice(), 0) {
        Some(_) => true,
        None => false,
    };
    if !inside || stored {
        LinkTarget::OutsideWiki
    } else {
        LinkTarget::Wiki(string_of(j.as_slice()))
    }
}

/// How serious a lint finding is.
#[derive(Debug, Clone, Copy, PartialEq, Eq, Structural)]
pub enum OkfSeverity {
    Error,
    Warning,
}

/// What a Wiki page is.
#[derive(Debug, Clone, Copy, PartialEq, Eq, Structural)]
pub enum OkfDocumentKind {
    Concept,
    Index,
    Other,
}

/// One lint finding about a page.
#[derive(Debug, Clone)]
pub struct OkfFinding {
    pub severity: OkfSeverity,
    pub code: String,
    pub path: String,
    pub line: Option<u64>,
    pub message: String,
    pub remediation: String,
}

/// A finding as values.
pub struct FindingInfo {
    pub severity: OkfSeverity,
    pub code: Seq<char>,
    pub path: Seq<char>,
    pub line: Option<u64>,
    pub message: Seq<char>,
    pub remediation: Seq<char>,
}

pub open spec fn finding_info(f: OkfFinding) -> FindingInfo {
    FindingInfo {
        severity: f.severity,
        code: f.code@,
        path: f.path@,
        line: f.line,
        message: f.message@,
        remediation: f.remediation@,
    }
}

pub open spec fn finding_infos(v: Seq<OkfFinding>) -> Seq<FindingInfo> {
    v.map_values(|f: OkfFinding| finding_info(f))
}

/// A Markdown link of a page and its line.
#[derive(Debug)]
pub struct WikiLink {
    pub destination: String,
    pub line: u64,
}

/// A source a page cites, and its line where known.
#[derive(Debug)]
pub struct SourceCitation {
    pub resource: String,
    pub line: Option<u64>,
}

/// A parsed Wiki page as lint reads it.
#[derive(Debug)]
pub struct LintDocument {
    pub path: String,
    pub kind: OkfDocumentKind,
    pub links: Vec<WikiLink>,
    pub supersedes: Vec<String>,
    pub sources: Vec<SourceCitation>,
}

/// A page as values.
pub struct LintDocView {
    pub path: Seq<char>,
    pub kind: OkfDocumentKind,
    pub links: Seq<(Seq<char>, u64)>,
    pub supersedes: Seq<Seq<char>>,
    pub sources: Seq<(Seq<char>, Option<u64>)>,
}

pub open spec fn lint_doc_view(d: LintDocument) -> LintDocView {
    LintDocView {
        path: d.path@,
        kind: d.kind,
        links: d.links@.map_values(|l: WikiLink| (l.destination@, l.line)),
        supersedes: crate::text::views(d.supersedes@),
        sources: d.sources@.map_values(|c: SourceCitation| (c.resource@, c.line)),
    }
}

pub open spec fn lint_doc_views(v: Seq<LintDocument>) -> Seq<LintDocView> {
    v.map_values(|d: LintDocument| lint_doc_view(d))
}

/// The kind of the page at `p`, when there is one.
pub open spec fn kind_at(docs: Seq<LintDocView>, p: Seq<char>) -> Option<OkfDocumentKind>
    decreases docs.len(),
{
    if docs.len() == 0 {
        None
    } else if docs.last().path == p {
        Some(docs.last().kind)
    } else {
        kind_at(docs.drop_last(), p)
    }
}

pub open spec fn finding(
    path: Seq<char>,
    severity: OkfSeverity,
    code: Seq<char>,
    line: Option<u64>,
    message: Seq<char>,
    remediation: Seq<char>,
) -> FindingInfo {
    FindingInfo { severity, code, path, line, message, remediation }
}

fn new_finding(path: &str, severity: OkfSeverity, code: &str, line: Option<u64>, message: &str, remediation: &str) -> (f:
    OkfFinding)
    ensures
        finding_info(f) == finding(path@, severity, code@, line, message@, remediation@),
{
    OkfFinding {
        severity,
        code: code.to_owned(),
        path: path.to_owned(),
        line,
        message: message.to_owned(),
        remediation: remediation.to_owned(),
    }
}

fn kind_of(docs: &Vec<LintDocument>, p: &[char]) -> (k: Option<OkfDocumentKind>)
    ensures
        k == kind_at(lint_doc_views(docs@), p@),
{
    let ghost dv = lint_doc_views(docs@);
    let mut i: usize = docs.len();
    proof {
        assert(dv.take(dv.len() as int) =~= dv);
    }
    while i > 0
        invariant
            i <= docs@.len(),
            dv == lint_doc_views(docs@),
            kind_at(dv, p@) == kind_at(dv.take(i as int), p@),
        decreases i,
    {
        proof {
            assert(dv.take(i as int).drop_last() =~= dv.take(i - 1));
            assert(dv.take(i as int).last() == dv[i - 1]);
        }
        let c = chars_of(docs[i - 1].path.as_str());
        if equal_chars(c.as_slice(), p) {
            return Some(docs[i - 1].kind);
        }
        i = i - 1;
    }
    None
}

/// Text without its trailing slashes.
pub open spec fn strip_end_slashes(s: Seq<char>) -> Seq<char>
    decreases s.len(),
{
    if s.len() > 0 && s.last() == '/' {
        strip_end_slashes(s.drop_last())
    } else {
        s
    }
}

/// What one link of a page gives: findings, and the page it links to.
/// Links to a directory lead to its `index.md`; a missing target is index
/// drift on an index page and a broken link elsewhere.
pub open spec fn link_outcome(
    docs: Seq<LintDocView>,
    dirs: Seq<Seq<char>>,
    d: LintDocView,
    link: (Seq<char>, u64),
) -> (Seq<FindingInfo>, Seq<Seq<char>>) {
    match wiki_target(d.path, link.0) {
        TargetView::ExternalOrFragment => (Seq::empty(), Seq::empty()),
        TargetView::OutsideWiki => (
            seq![finding(d.path, OkfSeverity::Error, "link_outside_wiki"@, Some(link.1),
                "Markdown link resolves outside Wiki or into .objects."@,
                "Use a Wiki-relative concept path or an absolute external URL."@)],
            Seq::empty(),
        ),
        TargetView::Invalid => (
            seq![finding(d.path, OkfSeverity::Error, "link_target_invalid"@, Some(link.1),
                "Markdown link contains invalid percent encoding or a non-portable path."@,
                "Use a UTF-8 portable path and percent-encode reserved characters."@)],
            Seq::empty(),
        ),
        TargetView::Wiki(t0) => {
            let t = if dirs.contains(t0) { strip_end_slashes(t0) + "/index.md"@ } else { t0 };
            if kind_at(docs, t) is Some {
                (Seq::empty(), if t != d.path { seq![t] } else { Seq::empty() })
            } else {
                (
                    seq![finding(d.path, OkfSeverity::Warning,
                        if d.kind == OkfDocumentKind::Index { "index_drift"@ } else { "broken_link"@ },
                        Some(link.1), "Markdown target does not exist: "@ + t,
                        "Create the target or update the link."@)],
                    Seq::empty(),
                )
            }
        },
    }
}

/// The findings and linked pages of some of a page's links, in order.
pub open spec fn links_outcome(
    docs: Seq<LintDocView>,
    dirs: Seq<Seq<char>>,
    d: LintDocView,
    links: Seq<(Seq<char>, u64)>,
) -> (Seq<FindingInfo>, Seq<Seq<char>>)
    decreases links.len(),
{
    if links.len() == 0 {
        (Seq::empty(), Seq::empty())
    } else {
        let (f, i) = links_outcome(docs, dirs, d, links.drop_last());
        let (f2, i2) = link_outcome(docs, dirs, d, links.last());
        (f + f2, i + i2)
    }
}

/// The findings and linked pages of the links of some pages, page by page.
pub open spec fn pages_links_outcome(docs: Seq<LintDocView>, dirs: Seq<Seq<char>>, ds: Seq<LintDocView>) -> (
    Seq<FindingInfo>,
    Seq<Seq<char>>,
)
    decreases ds.len(),
{
    if ds.len() == 0 {
        (Seq::empty(), Seq::empty())
    } else {
        let (f, i) = pages_links_outcome(docs, dirs, ds.drop_last());
        let (f2, i2) = links_outcome(docs, dirs, ds.last(), ds.last().links);
        (f + f2, i + i2)
    }
}

fn listed_text(v: &Vec<String>, t: &[char]) -> (b: bool)
    ensures
        b == crate::text::views(v@).contains(t@),
{
    let ghost vv = crate::text::views(v@);
    let mut i: usize = 0;
    while i < v.len()
        invariant
            i <= v@.len(),
            vv == crate::text::views(v@),
            forall|k: int| 0 <= k < i ==> vv[k] != t@,
        decreases v@.len() - i,
    {
        let c = chars_of(v[i].as_str());
        if equal_chars(c.as_slice(), t) {
            proof {
                assert(vv[i as int] == t@);
            }
            return true;
        }
        i = i + 1;
    }
    false
}

fn strip_end_slashes_exec(s: &[char]) -> (out: Vec<char>)
    ensures
        out@ == strip_end_slashes(s@),
{
    let mut k: usize = s.len();
    proof {
        assert(s@.take(k as int) =~= s@);
    }
    while k > 0 && s[k - 1] == '/'
        invariant
            k <= s@.len(),
            strip_end_slashes(s@) == strip_end_slashes(s@.take(k as int)),
        decreases k,
    {
        proof {
            assert(s@.take(k as int).drop_last() =~= s@.take(k - 1));
        }
        k = k - 1;
    }
    slice_vec(s, 0, k)
}

fn push_finding(out: &mut Vec<OkfFinding>, f: OkfFinding)
    ensures
        finding_infos(final(out)@) == finding_infos(old(out)@).push(finding_info(f)),
{
    let ghost before = out@;
    out.push(f);
    proof {
        assert(finding_infos(out@) =~= finding_infos(before).push(finding_info(f)));
    }
}

fn push_text(out: &mut Vec<String>, t: String)
    ensures
        crate::text::views(final(out)@) == crate::text::views(old(out)@).push(t@),
{
    let ghost before = out@;
    out.push(t);
    proof {
        assert(crate::text::views(out@) =~= crate::text::views(before).push(t@));
    }
}

fn link_outcome_exec(
    docs: &Vec<LintDocument>,
    dirs: &Vec<String>,
    d: &LintDocument,
    link: &WikiLink,
    findings: &mut Vec<OkfFinding>,
    incoming: &mut Vec<String>,
)
    ensures
        ({
            let (f, i) = link_outcome(
                lint_doc_views(docs@),
                crate::text::views(dirs@),
                lint_doc_view(*d),
                (link.destination@, link.line),
            );
            finding_infos(final(findings)@) == finding_infos(old(findings)@) + f && crate::text::views(final(incoming)@)
                == crate::text::views(old(incoming)@) + i
        }),
{
    let ghost f0 = finding_infos(findings@);
    let ghost i0 = crate::text::views(incoming@);
    let path = d.path.as_str();
    match resolve_wiki_target(path, link.destination.as_str()) {
        LinkTarget::ExternalOrFragment => {
            proof {
                assert(f0 + Seq::<FindingInfo>::empty() =~= f0);
                assert(i0 + Seq::<Seq<char>>::empty() =~= i0);
            }
        },
        LinkTarget::OutsideWiki => {
            push_finding(
                findings,
                new_finding(
                    path,
                    OkfSeverity::Error,
                    "link_outside_wiki",
                    Some(link.line),
                    "Markdown link resolves outside Wiki or into .objects.",
                    "Use a Wiki-relative concept path or an absolute external URL.",
                ),
            );
            proof {
                assert(i0 + Seq::<Seq<char>>::empty() =~= i0);
            }
        },
        LinkTarget::Invalid => {
            push_finding(
                findings,
                new_finding(
                    path,
                    OkfSeverity::Error,
                    "link_target_invalid",
                    Some(link.line),
                    "Markdown link contains invalid percent encoding or a non-portable path.",
                    "Use a UTF-8 portable path and percent-encode reserved characters.",
                ),
            );
            proof {
                assert(i0 + Seq::<Seq<char>>::empty() =~= i0);
            }
        },
        LinkTarget::Wiki(t0) => {
            let tc = chars_of(t0.as_str());
            let t = if listed_text(dirs, tc.as_slice()) {
                let mut v = strip_end_slashes_exec(tc.as_slice());
                crate::text::append_chars(&mut v, chars_of("/index.md").as_slice());
                v
            } else {
                tc
            };
            let pc = chars_of(path);
            if kind_of(docs, t.as_slice()).is_some() {
                if !equal_chars(t.as_slice(), pc.as_slice()) {
                    push_text(incoming, string_of(t.as_slice()));
                    proof {
                        assert(crate::text::views(incoming@) =~= i0 + seq![t@]);
                    }
                } else {
                    proof {
                        assert(i0 + Seq::<Seq<char>>::empty() =~= i0);
                    }
                }
                proof {
                    assert(f0 + Seq::<FindingInfo>::empty() =~= f0);
                }
            } else {
                let mut m = chars_of("Markdown target does not exist: ");
                crate::text::append_chars(&mut m, t.as_slice());
                let code = if d.kind == OkfDocumentKind::Index { "index_drift" } else { "broken_link" };
                push_finding(
                    findings,
                    new_finding(
                        path,
                        OkfSeverity::Warning,
                        code,
                        Some(link.line),
                        string_of(m.as_slice()).as_str(),
                        "Create the target or update the link.",
                    ),
                );
                proof {
                    assert(i0 + Seq::<Seq<char>>::empty() =~= i0);
                }
            }
        },
    }
    proof {
        assert(finding_infos(findings@) =~= f0 + link_outcome(
            lint_doc_views(docs@),
            crate::text::views(dirs@),
            lint_doc_view(*d),
            (link.destination@, link.line),
        ).0);
    }
}

/// The link findings of pages, and the pages their links reach (see
/// `pages_links_outcome`).
pub fn link_findings(docs: &Vec<LintDocument>, dirs: &Vec<String>) -> (r: (Vec<OkfFinding>, Vec<String>))
    ensures
        (finding_infos(r.0@), crate::text::views(r.1@)) == pages_links_outcome(
            lint_doc_views(docs@),
            crate::text::views(dirs@),
            lint_doc_views(docs@),
        ),
{
    let ghost dv = lint_doc_views(docs@);
    let ghost dirv = crate::text::views(dirs@);
    let mut findings: Vec<OkfFinding> = Vec::new();
    let mut incoming: Vec<String> = Vec::new();
    let mut i: usize = 0;
    proof {
        assert(dv.take(0) =~= Seq::<LintDocView>::empty());
        assert(finding_infos(findings@) =~= Seq::<FindingInfo>::empty());
        assert(crate::text::views(incoming@) =~= Seq::<Seq<char>>::empty());
    }
    while i < docs.len()
        invariant
            i <= docs@.len(),
            dv == lint_doc_views(docs@),
            dirv == crate::text::views(dirs@),
            (finding_infos(findings@), crate::text::views(incoming@)) == pages_links_outcome(dv, dirv, dv.take(i as int)),
        decreases docs@.len() - i,
    {
        proof {
            assert(dv.take(i + 1).drop_last() =~= dv.take(i as int));
            assert(dv.take(i + 1).last() == dv[i as int]);
        }
        let d = &docs[i];
        let ghost lv = lint_doc_view(*d).links;
        let ghost f0 = finding_infos(findings@);
        let ghost i0 = crate::text::views(incoming@);
        let mut j: usize = 0;
        proof {
            assert(lv.take(0) =~= Seq::<(Seq<char>, u64)>::empty());
            assert(f0 + Seq::<FindingInfo>::empty() =~= f0);
            assert(i0 + Seq::<Seq<char>>::empty() =~= i0);
        }
        while j < d.links.len()
            invariant
                j <= d.links@.len(),
                dv == lint_doc_views(docs@),
                dirv == crate::text::views(dirs@),
                lv == lint_doc_view(*d).links,
                lv.len() == d.links@.len(),
                ({
                    let (f, inc) = links_outcome(dv, dirv, lint_doc_view(*d), lv.take(j as int));
                    finding_infos(findings@) == f0 + f && crate::text::views(incoming@) == i0 + inc
                }),
            decreases d.links@.len() - j,
        {
            proof {
                assert(lv.take(j + 1).drop_last() =~= lv.take(j as int));
                assert(lv.take(j + 1).last() == lv[j as int]);
                assert(lv[j as int] == (d.links@[j as int].destination@, d.links@[j as int].line));
            }
            let ghost fa = finding_infos(findings@);
            let ghost ia = crate::text::views(incoming@);
            link_outcome_exec(docs, dirs, d, &d.links[j], &mut findings, &mut incoming);
            proof {
                let (f, inc) = links_outcome(dv, dirv, lint_doc_view(*d), lv.take(j as int));
                let (f2, i2) = link_outcome(dv, dirv, lint_doc_view(*d), lv[j as int]);
                assert(f0 + f + f2 =~= f0 + (f + f2));
                assert(i0 + inc + i2 =~= i0 + (inc + i2));
            }
            j = j + 1;
        }
        proof {
            assert(lv.take(lv.len() as int) =~= lv);
            let (f, inc) = pages_links_outcome(dv, dirv, dv.take(i as int));
            assert(dv[i as int] == lint_doc_view(*d));
        }
        i = i + 1;
    }
    proof {
        assert(dv.take(docs@.len() as int) =~= dv);
    }
    (findings, incoming)
}

/// What one `kb.supersedes` value of a page gives: the concept it names
/// (`Wiki/` and the value), or a finding when that is the page itself or not
/// an existing Markdown concept outside `.objects`.
pub open spec fn supersede_outcome(docs: Seq<LintDocView>, d: LintDocView, v: Seq<char>) -> (
    Seq<FindingInfo>,
    Seq<Seq<char>>,
) {
    let t = "Wiki/"@ + v;
    if t == d.path {
        (
            seq![finding(d.path, OkfSeverity::Error, "supersedes_self"@, None,
                "A concept cannot supersede itself."@,
                "Remove the self-reference or name the older concept."@)],
            Seq::empty(),
        )
    } else if crate::text::ends_with(t, ".md"@) && !contains_seq(t, "/.objects/"@) && kind_at(docs, t) == Some(
        OkfDocumentKind::Concept,
    ) {
        (Seq::empty(), seq![t])
    } else {
        (seq![invalid_supersedes_view(d.path)], Seq::empty())
    }
}

pub open spec fn invalid_supersedes_view(path: Seq<char>) -> FindingInfo {
    finding(
        path,
        OkfSeverity::Error,
        "supersedes_invalid_target"@,
        None,
        "kb.supersedes must name an existing Wiki concept."@,
        "Use a Wiki-relative .md path that is not index.md, log.md, or .objects."@,
    )
}

/// The supersession findings and superseded concepts of some values.
pub open spec fn supersedes_outcome(docs: Seq<LintDocView>, d: LintDocView, vs: Seq<Seq<char>>) -> (
    Seq<FindingInfo>,
    Seq<Seq<char>>,
)
    decreases vs.len(),
{
    if vs.len() == 0 {
        (Seq::empty(), Seq::empty())
    } else {
        let (f, i) = supersedes_outcome(docs, d, vs.drop_last());
        let (f2, i2) = supersede_outcome(docs, d, vs.last());
        (f + f2, i + i2)
    }
}

/// The supersession findings and superseded concepts of pages, page by page.
pub open spec fn pages_supersedes_outcome(docs: Seq<LintDocView>, ds: Seq<LintDocView>) -> (
    Seq<FindingInfo>,
    Seq<Seq<char>>,
)
    decreases ds.len(),
{
    if ds.len() == 0 {
        (Seq::empty(), Seq::empty())
    } else {
        let (f, i) = pages_supersedes_outcome(docs, ds.drop_last());
        let (f2, i2) = supersedes_outcome(docs, ds.last(), ds.last().supersedes);
        (f + f2, i + i2)
    }
}

fn supersede_outcome_exec(
    docs: &Vec<LintDocument>,
    d: &LintDocument,
    v: &String,
    findings: &mut Vec<OkfFinding>,
    incoming: &mut Vec<String>,
)
    ensures
        ({
            let (f, i) = supersede_outcome(lint_doc_views(docs@), lint_doc_view(*d), v@);
            finding_infos(final(findings)@) == finding_infos(old(findings)@) + f && crate::text::views(final(incoming)@)
                == crate::text::views(old(incoming)@) + i
        }),
{
    let ghost f0 = finding_infos(findings@);
    let ghost i0 = crate::text::views(incoming@);
    let mut t = chars_of("Wiki/");
    crate::text::append_chars(&mut t, chars_of(v.as_str()).as_slice());
    let pc = chars_of(d.path.as_str());
    let md = chars_of(".md");
    let objects = chars_of("/.objects/");
    if equal_chars(t.as_slice(), pc.as_slice()) {
        push_finding(
            findings,
            new_finding(
                d.path.as_str(),
                OkfSeverity::Error,
                "supersedes_self",
                None,
                "A concept cannot supersede itself.",
                "Remove the self-reference or name the older concept.",
            ),
        );
        proof {
            assert(i0 + Seq::<Seq<char>>::empty() =~= i0);
        }
    } else {
        let stored = match crate::text::find_from(t.as_slice(), objects.as_slice(), 0) {
            Some(_) => true,
            None => false,
        };
        let concept = match kind_of(docs, t.as_slice()) {
            Some(k) => k == OkfDocumentKind::Concept,
            None => false,
        };
        if crate::text::ends_with_exec(t.as_slice(), md.as_slice()) && !stored && concept {
            push_text(incoming, string_of(t.as_slice()));
            proof {
                assert(f0 + Seq::<FindingInfo>::empty() =~= f0);
            }
        } else {
            push_finding(
                findings,
                new_finding(
                    d.path.as_str(),
                    OkfSeverity::Error,
                    "supersedes_invalid_target",
                    None,
                    "kb.supersedes must name an existing Wiki concept.",
                    "Use a Wiki-relative .md path that is not index.md, log.md, or .objects.",
                ),
            );
            proof {
                assert(i0 + Seq::<Seq<char>>::empty() =~= i0);
            }
        }
    }
}

/// The supersession findings of pages, and the concepts they supersede (see
/// `pages_supersedes_outcome`).
pub fn supersedes_findings(docs: &Vec<LintDocument>) -> (r: (Vec<OkfFinding>, Vec<String>))
    ensures
        (finding_infos(r.0@), crate::text::views(r.1@)) == pages_supersedes_outcome(
            lint_doc_views(docs@),
            lint_doc_views(docs@),
        ),
{
    let ghost dv = lint_doc_views(docs@);
    let mut findings: Vec<OkfFinding> = Vec::new();
    let mut incoming: Vec<String> = Vec::new();
    let mut i: usize = 0;
    proof {
        assert(dv.take(0) =~= Seq::<LintDocView>::empty());
        assert(finding_infos(findings@) =~= Seq::<FindingInfo>::empty());
        assert(crate::text::views(incoming@) =~= Seq::<Seq<char>>::empty());
    }
    while i < docs.len()
        invariant
            i <= docs@.len(),
            dv == lint_doc_views(docs@),
            (finding_infos(findings@), crate::text::views(incoming@)) == pages_supersedes_outcome(dv, dv.take(i as int)),
        decreases docs@.len() - i,
    {
        proof {
            assert(dv.take(i + 1).drop_last() =~= dv.take(i as int));
            assert(dv.take(i + 1).last() == dv[i as int]);
        }
        let d = &docs[i];
        let ghost sv = lint_doc_view(*d).supersedes;
        let ghost f0 = finding_infos(findings@);
        let ghost i0 = crate::text::views(incoming@);
        let mut j: usize = 0;
        proof {
            assert(sv.take(0) =~= Seq::<Seq<char>>::empty());
            assert(f0 + Seq::<FindingInfo>::empty() =~= f0);
            assert(i0 + Seq::<Seq<char>>::empty() =~= i0);
        }
        while j < d.supersedes.len()
            invariant
                j <= d.supersedes@.len(),
                dv == lint_doc_views(docs@),
                sv == lint_doc_view(*d).supersedes,
                sv.len() == d.supersedes@.len(),
                ({
                    let (f, inc) = supersedes_outcome(dv, lint_doc_view(*d), sv.take(j as int));
                    finding_infos(findings@) == f0 + f && crate::text::views(incoming@) == i0 + inc
                }),
            decreases d.supersedes@.len() - j,
        {
            proof {
                assert(sv.take(j + 1).drop_last() =~= sv.take(j as int));
                assert(sv.take(j + 1).last() == sv[j as int]);
                assert(sv[j as int] == d.supersedes@[j as int]@);
            }
            supersede_outcome_exec(docs, d, &d.supersedes[j], &mut findings, &mut incoming);
            proof {
                let (f, inc) = supersedes_outcome(dv, lint_doc_view(*d), sv.take(j as int));
                let (f2, i2) = supersede_outcome(dv, lint_doc_view(*d), sv[j as int]);
                assert(f0 + f + f2 =~= f0 + (f + f2));
                assert(i0 + inc + i2 =~= i0 + (inc + i2));
            }
            j = j + 1;
        }
        proof {
            assert(sv.take(sv.len() as int) =~= sv);
            assert(dv[i as int] == lint_doc_view(*d));
        }
        i = i + 1;
    }
    proof {
        assert(dv.take(docs@.len() as int) =~= dv);
    }
    (findings, incoming)
}

/// Where `p` last occurs in `s`, or -1.
pub open spec fn last_at(s: Seq<char>, p: Seq<char>) -> int {
    if exists|i: int| occurs_at(s, p, i) {
        choose|i: int| occurs_at(s, p, i) && forall|k: int| i < k ==> !occurs_at(s, p, k)
    } else {
        -1
    }
}

proof fn lemma_last_at(s: Seq<char>, p: Seq<char>, i: int)
    requires
        occurs_at(s, p, i),
        forall|k: int| i < k ==> !occurs_at(s, p, k),
    ensures
        last_at(s, p) == i,
{
    let j = last_at(s, p);
    assert(occurs_at(s, p, j) && forall|k: int| j < k ==> !occurs_at(s, p, k));
    if j < i {
        assert(!occurs_at(s, p, i));
    }
    if i < j {
        assert(!occurs_at(s, p, j));
    }
}

fn last_at_exec(s: &[char], p: &[char]) -> (r: Option<usize>)
    requires
        p@.len() > 0,
    ensures
        match r {
            Some(i) => last_at(s@, p@) == i && occurs_at(s@, p@, i as int),
            None => last_at(s@, p@) == -1,
        },
{
    if p.len() > s.len() {
        proof {
            assert forall|k: int| !occurs_at(s@, p@, k) by {}
        }
        return None;
    }
    let mut k: usize = s.len() - p.len() + 1;
    while k > 0
        invariant
            k <= s@.len() - p@.len() + 1,
            p@.len() <= s@.len(),
            forall|j: int| k <= j ==> !occurs_at(s@, p@, j),
        decreases k,
    {
        if crate::text::occurs_at_exec(s, p, k - 1) {
            proof {
                lemma_last_at(s@, p@, k - 1);
            }
            return Some(k - 1);
        }
        k = k - 1;
    }
    proof {
        assert(!exists|i: int| occurs_at(s@, p@, i));
    }
    None
}

/// A lowercase hexadecimal digit.
pub open spec fn lower_hex(c: char) -> bool {
    ('0' <= c && c <= '9') || ('a' <= c && c <= 'f')
}

/// An exact `kb-source://` address: a logical address, `?sha256=` and 64
/// lowercase hexadecimal digits (split at the last `?sha256=`).
pub open spec fn exact_source_uri(r: Seq<char>) -> bool {
    let i = last_at(r, "?sha256="@);
    i >= 0 && starts_with(r.take(i), "kb-source://"@) && r.skip(i + 8).len() == 64 && forall|k: int|
        0 <= k < r.skip(i + 8).len() ==> lower_hex(#[trigger] r.skip(i + 8)[k])
}

/// Whether a source version is current, by the last entry for it in the
/// history.
pub open spec fn version_state(versions: Seq<(Seq<char>, bool)>, r: Seq<char>) -> Option<bool>
    decreases versions.len(),
{
    if versions.len() == 0 {
        None
    } else if versions.last().0 == r {
        Some(versions.last().1)
    } else {
        version_state(versions.drop_last(), r)
    }
}

/// What one cited source of a page gives: for an exact source version, a
/// finding when it is malformed or unknown, or known but not current; for a
/// Wiki page, that page as linked.
#[verifier::opaque]
pub open spec fn citation_outcome(
    docs: Seq<LintDocView>,
    versions: Seq<(Seq<char>, bool)>,
    d: LintDocView,
    c: (Seq<char>, Option<u64>),
) -> (Seq<FindingInfo>, Seq<Seq<char>>) {
    if starts_with(c.0, "kb-source://"@) {
        if !exact_source_uri(c.0) || version_state(versions, c.0) is None {
            (
                seq![finding(d.path, OkfSeverity::Error, "source_version_missing"@, c.1,
                    "The exact kb-source version is malformed or absent from source history."@,
                    "Capture the source version and reference its exact URI including sha256."@)],
                Seq::empty(),
            )
        } else if version_state(versions, c.0) == Some(false) {
            (
                seq![finding(d.path, OkfSeverity::Warning, "source_version_outdated"@, c.1,
                    "The referenced source version exists but is not current."@,
                    "Review the current source before deciding whether to update this concept."@)],
                Seq::empty(),
            )
        } else {
            (Seq::empty(), Seq::empty())
        }
    } else {
        match wiki_target(d.path, c.0) {
            TargetView::Wiki(t) => if kind_at(docs, t) is Some && t != d.path {
                (Seq::empty(), seq![t])
            } else {
                (Seq::empty(), Seq::empty())
            },
            _ => (Seq::empty(), Seq::empty()),
        }
    }
}

/// The findings and linked pages of some cited sources of a page.
pub open spec fn citations_outcome(
    docs: Seq<LintDocView>,
    versions: Seq<(Seq<char>, bool)>,
    d: LintDocView,
    cs: Seq<(Seq<char>, Option<u64>)>,
) -> (Seq<FindingInfo>, Seq<Seq<char>>)
    decreases cs.len(),
{
    if cs.len() == 0 {
        (Seq::empty(), Seq::empty())
    } else {
        let (f, i) = citations_outcome(docs, versions, d, cs.drop_last());
        let (f2, i2) = citation_outcome(docs, versions, d, cs.last());
        (f + f2, i + i2)
    }
}

/// The findings and linked pages of the cited sources of pages, page by page.
pub open spec fn pages_citations_outcome(
    docs: Seq<LintDocView>,
    versions: Seq<(Seq<char>, bool)>,
    ds: Seq<LintDocView>,
) -> (Seq<FindingInfo>, Seq<Seq<char>>)
    decreases ds.len(),
{
    if ds.len() == 0 {
        (Seq::empty(), Seq::empty())
    } else {
        let (f, i) = pages_citations_outcome(docs, versions, ds.drop_last());
        let (f2, i2) = citations_outcome(docs, versions, ds.last(), ds.last().sources);
        (f + f2, i + i2)
    }
}

pub open spec fn version_views(v: Seq<(String, bool)>) -> Seq<(Seq<char>, bool)> {
    v.map_values(|e: (String, bool)| (e.0@, e.1))
}

fn version_state_exec(versions: &Vec<(String, bool)>, r: &[char]) -> (s: Option<bool>)
    ensures
        s == version_state(version_views(versions@), r@),
{
    let ghost vv = version_views(versions@);
    let mut i: usize = versions.len();
    proof {
        assert(vv.take(vv.len() as int) =~= vv);
    }
    while i > 0
        invariant
            i <= versions@.len(),
            vv == version_views(versions@),
            version_state(vv, r@) == version_state(vv.take(i as int), r@),
        decreases i,
    {
        proof {
            assert(vv.take(i as int).drop_last() =~= vv.take(i - 1));
            assert(vv.take(i as int).last() == vv[i - 1]);
        }
        let c = chars_of(versions[i - 1].0.as_str());
        if equal_chars(c.as_slice(), r) {
            return Some(versions[i - 1].1);
        }
        i = i - 1;
    }
    None
}

fn lower_hex_digits(d: &[char]) -> (b: bool)
    ensures
        b == forall|k: int| 0 <= k < d@.len() ==> lower_hex(#[trigger] d@[k]),
{
    let mut k: usize = 0;
    while k < d.len()
        invariant
            k <= d@.len(),
            forall|j: int| 0 <= j < k ==> lower_hex(#[trigger] d@[j]),
        decreases d@.len() - k,
    {
        let c = d[k];
        if !(('0' <= c && c <= '9') || ('a' <= c && c <= 'f')) {
            proof {
                assert(!lower_hex(d@[k as int]));
            }
            return false;
        }
        k = k + 1;
    }
    true
}

fn exact_source_uri_exec(r: &[char]) -> (b: bool)
    ensures
        b == exact_source_uri(r@),
{
    let marker = chars_of("?sha256=");
    proof {
        reveal_strlit("?sha256=");
        assert(marker@.len() == 8);
    }
    let i = match last_at_exec(r, marker.as_slice()) {
        Some(i) => i,
        None => {
            return false;
        },
    };
    let n = r.len();
    assert(i + 8 <= n);
    let logical = slice_vec(r, 0, i);
    let digest = slice_vec(r, i + 8, n);
    proof {
        assert(logical@ =~= r@.take(i as int));
        assert(digest@ =~= r@.skip(i + 8));
    }
    let prefix = chars_of("kb-source://");
    starts_with_exec(logical.as_slice(), prefix.as_slice()) && digest.len() == 64 && lower_hex_digits(digest.as_slice())
}

fn citation_outcome_exec(
    docs: &Vec<LintDocument>,
    versions: &Vec<(String, bool)>,
    d: &LintDocument,
    c: &SourceCitation,
    findings: &mut Vec<OkfFinding>,
    incoming: &mut Vec<String>,
)
    ensures
        ({
            let (f, i) = citation_outcome(
                lint_doc_views(docs@),
                version_views(versions@),
                lint_doc_view(*d),
                (c.resource@, c.line),
            );
            finding_infos(final(findings)@) == finding_infos(old(findings)@) + f && crate::text::views(final(incoming)@)
                == crate::text::views(old(incoming)@) + i
        }),
{
    let ghost f0 = finding_infos(findings@);
    let ghost i0 = crate::text::views(incoming@);
    proof {
        reveal(citation_outcome);
    }
    let rc = chars_of(c.resource.as_str());
    let scheme = chars_of("kb-source://");
    if starts_with_exec(rc.as_slice(), scheme.as_slice()) {
        let state = version_state_exec(versions, rc.as_slice());
        if !exact_source_uri_exec(rc.as_slice()) || state.is_none() {
            push_finding(
                findings,
                new_finding(
                    d.path.as_str(),
                    OkfSeverity::Error,
                    "source_version_missing",
                    c.line,
                    "The exact kb-source version is malformed or absent from source history.",
                    "Capture the source version and reference its exact URI including sha256.",
                ),
            );
        } else if state == Some(false) {
            push_finding(
                findings,
                new_finding(
                    d.path.as_str(),
                    OkfSeverity::Warning,
                    "source_version_outdated",
                    c.line,
                    "The referenced source version exists but is not current.",
                    "Review the current source before deciding whether to update this concept.",
                ),
            );
        } else {
            proof {
                assert(f0 + Seq::<FindingInfo>::empty() =~= f0);
            }
        }
        proof {
            assert(i0 + Seq::<Seq<char>>::empty() =~= i0);
        }
    } else {
        match resolve_wiki_target(d.path.as_str(), c.resource.as_str()) {
            LinkTarget::Wiki(t) => {
                let tc = chars_of(t.as_str());
                let pc = chars_of(d.path.as_str());
                if kind_of(docs, tc.as_slice()).is_some() && !equal_chars(tc.as_slice(), pc.as_slice()) {
                    push_text(incoming, t);
                } else {
                    proof {
                        assert(i0 + Seq::<Seq<char>>::empty() =~= i0);
                    }
                }
            },
            _ => {
                proof {
                    assert(i0 + Seq::<Seq<char>>::empty() =~= i0);
                }
            },
        }
        proof {
            assert(f0 + Seq::<FindingInfo>::empty() =~= f0);
        }
    }
}

/// The findings of pages' cited sources, and the Wiki pages they cite (see
/// `pages_citations_outcome`); `versions` is the source history in the order
/// it was read, later entries for an address overriding earlier ones.
pub fn citation_findings(docs: &Vec<LintDocument>, versions: &Vec<(String, bool)>) -> (r: (Vec<OkfFinding>, Vec<String>))
    ensures
        (finding_infos(r.0@), crate::text::views(r.1@)) == pages_citations_outcome(
            lint_doc_views(docs@),
            version_views(versions@),
            lint_doc_views(docs@),
        ),
{
    let ghost dv = lint_doc_views(docs@);
    let ghost vv = version_views(versions@);
    let mut findings: Vec<OkfFinding> = Vec::new();
    let mut incoming: Vec<String> = Vec::new();
    let mut i: usize = 0;
    proof {
        assert(dv.take(0) =~= Seq::<LintDocView>::empty());
        assert(finding_infos(findings@) =~= Seq::<FindingInfo>::empty());
        assert(crate::text::views(incoming@) =~= Seq::<Seq<char>>::empty());
    }
    while i < docs.len()
        invariant
            i <= docs@.len(),
            dv == lint_doc_views(docs@),
            vv == version_views(versions@),
            (finding_infos(findings@), crate::text::views(incoming@)) == pages_citations_outcome(dv, vv, dv.take(i as int)),
        decreases docs@.len() - i,
    {
        proof {
            assert(dv.take(i + 1).drop_last() =~= dv.take(i as int));
            assert(dv.take(i + 1).last() == dv[i as int]);
        }
        let d = &docs[i];
        let ghost cv = lint_doc_view(*d).sources;
        let ghost f0 = finding_infos(findings@);
        let ghost i0 = crate::text::views(incoming@);
        let mut j: usize = 0;
        proof {
            assert(cv.take(0) =~= Seq::<(Seq<char>, Option<u64>)>::empty());
            assert(f0 + Seq::<FindingInfo>::empty() =~= f0);
            assert(i0 + Seq::<Seq<char>>::empty() =~= i0);
        }
        while j < d.sources.len()
            invariant
                j <= d.sources@.len(),
                dv == lint_doc_views(docs@),
                vv == version_views(versions@),
                cv == lint_doc_view(*d).sources,
                cv.len() == d.sources@.len(),
                ({
                    let (f, inc) = citations_outcome(dv, vv, lint_doc_view(*d), cv.take(j as int));
                    finding_infos(findings@) == f0 + f && crate::text::views(incoming@) == i0 + inc
                }),
            decreases d.sources@.len() - j,
        {
            proof {
                assert(cv.take(j + 1).drop_last() =~= cv.take(j as int));
                assert(cv.take(j + 1).last() == cv[j as int]);
                assert(cv[j as int] == (d.sources@[j as int].resource@, d.sources@[j as int].line));
            }
            citation_outcome_exec(docs, versions, d, &d.sources[j], &mut findings, &mut incoming);
            proof {
                let (f, inc) = citations_outcome(dv, vv, lint_doc_view(*d), cv.take(j as int));
                let (f2, i2) = citation_outcome(dv, vv, lint_doc_view(*d), cv[j as int]);
                assert(f0 + f + f2 =~= f0 + (f + f2));
                assert(i0 + inc + i2 =~= i0 + (inc + i2));
            }
            j = j + 1;
        }
        proof {
            assert(cv.take(cv.len() as int) =~= cv);
            assert(dv[i as int] == lint_doc_view(*d));
        }
        i = i + 1;
    }
    proof {
        assert(dv.take(docs@.len() as int) =~= dv);
    }
    (findings, incoming)
}

/// A concept under `Wiki/research/` or `Wiki/articles/` that nothing links to.
pub open spec fn is_orphan(d: LintDocView, incoming: Seq<Seq<char>>) -> bool {
    &&& d.kind == OkfDocumentKind::Concept
    &&& starts_with(d.path, "Wiki/research/"@) || starts_with(d.path, "Wiki/articles/"@)
    &&& !incoming.contains(d.path)
}

pub open spec fn orphan_view(path: Seq<char>) -> FindingInfo {
    finding(
        path,
        OkfSeverity::Warning,
        "orphan_concept"@,
        None,
        "No Wiki concept or index links to this concept."@,
        "Link it from a relevant concept or index, or leave it intentionally orphaned."@,
    )
}

/// One finding for each orphaned concept, in page order.
pub open spec fn orphans(ds: Seq<LintDocView>, incoming: Seq<Seq<char>>) -> Seq<FindingInfo>
    decreases ds.len(),
{
    if ds.len() == 0 {
        Seq::empty()
    } else if is_orphan(ds.last(), incoming) {
        orphans(ds.drop_last(), incoming).push(orphan_view(ds.last().path))
    } else {
        orphans(ds.drop_last(), incoming)
    }
}

/// The orphaned concepts among pages, given the pages something links to
/// (see `orphans`).
pub fn orphan_findings(docs: &Vec<LintDocument>, incoming: &Vec<String>) -> (out: Vec<OkfFinding>)
    ensures
        finding_infos(out@) == orphans(lint_doc_views(docs@), crate::text::views(incoming@)),
{
    let ghost dv = lint_doc_views(docs@);
    let ghost iv = crate::text::views(incoming@);
    let research = chars_of("Wiki/research/");
    let articles = chars_of("Wiki/articles/");
    let mut out: Vec<OkfFinding> = Vec::new();
    let mut i: usize = 0;
    proof {
        assert(dv.take(0) =~= Seq::<LintDocView>::empty());
        assert(finding_infos(out@) =~= Seq::<FindingInfo>::empty());
    }
    while i < docs.len()
        invariant
            i <= docs@.len(),
            dv == lint_doc_views(docs@),
            iv == crate::text::views(incoming@),
            research@ == "Wiki/research/"@,
            articles@ == "Wiki/articles/"@,
            finding_infos(out@) == orphans(dv.take(i as int), iv),
        decreases docs@.len() - i,
    {
        proof {
            assert(dv.take(i + 1).drop_last() =~= dv.take(i as int));
            assert(dv.take(i + 1).last() == dv[i as int]);
        }
        let d = &docs[i];
        let pc = chars_of(d.path.as_str());
        if d.kind == OkfDocumentKind::Concept && (starts_with_exec(pc.as_slice(), research.as_slice())
            || starts_with_exec(pc.as_slice(), articles.as_slice())) && !listed_text(incoming, pc.as_slice()) {
            push_finding(
                &mut out,
                new_finding(
                    d.path.as_str(),
                    OkfSeverity::Warning,
                    "orphan_concept",
                    None,
                    "No Wiki concept or index links to this concept.",
                    "Link it from a relevant concept or index, or leave it intentionally orphaned.",
                ),
            );
        }
        i = i + 1;
    }
    proof {
        assert(dv.take(docs@.len() as int) =~= dv);
    }
    out
}

/// All lint findings about pages' links, supersession, cited sources and
/// orphans, in that order; a page counts as linked when any page links to
/// it, supersedes it or cites it.
pub open spec fn lint_outcome(
    docs: Seq<LintDocView>,
    dirs: Seq<Seq<char>>,
    versions: Seq<(Seq<char>, bool)>,
) -> Seq<FindingInfo> {
    let (lf, li) = pages_links_outcome(docs, dirs, docs);
    let (sf, si) = pages_supersedes_outcome(docs, docs);
    let (cf, ci) = pages_citations_outcome(docs, versions, docs);
    lf + sf + cf + orphans(docs, li + si + ci)
}

/// The lint findings of parsed Wiki pages (see `lint_outcome`): `dirs` are
/// the Wiki paths that are directories, `versions` the source history.
pub fn lint_findings(docs: &Vec<LintDocument>, dirs: &Vec<String>, versions: &Vec<(String, bool)>) -> (out: Vec<
    OkfFinding,
>)
    ensures
        finding_infos(out@) == lint_outcome(
            lint_doc_views(docs@),
            crate::text::views(dirs@),
            version_views(versions@),
        ),
{
    let (mut lf, mut li) = link_findings(docs, dirs);
    let (mut sf, mut si) = supersedes_findings(docs);
    let (mut cf, mut ci) = citation_findings(docs, versions);
    let ghost (a, b, c) = (finding_infos(lf@), finding_infos(sf@), finding_infos(cf@));
    let ghost (x, y, z) = (crate::text::views(li@), crate::text::views(si@), crate::text::views(ci@));
    li.append(&mut si);
    li.append(&mut ci);
    proof {
        assert(crate::text::views(li@) =~= x + y + z);
    }
    let mut orphans_found = orphan_findings(docs, &li);
    lf.append(&mut sf);
    lf.append(&mut cf);
    let ghost d = finding_infos(orphans_found@);
    lf.append(&mut orphans_found);
    proof {
        assert(finding_infos(lf@) =~= a + b + c + d);
    }
    lf
}

/// No finding of `fs` is an orphan report.
pub open spec fn no_orphan_code(fs: Seq<FindingInfo>) -> bool {
    forall|k: int| 0 <= k < fs.len() ==> (#[trigger] fs[k]).code != "orphan_concept"@
}

proof fn lemma_codes_join(a: Seq<FindingInfo>, b: Seq<FindingInfo>)
    requires
        no_orphan_code(a),
        no_orphan_code(b),
    ensures
        no_orphan_code(a + b),
{
    assert forall|k: int| 0 <= k < (a + b).len() implies (#[trigger] (a + b)[k]).code != "orphan_concept"@ by {
        if k < a.len() {
            assert((a + b)[k] == a[k]);
        } else {
            assert((a + b)[k] == b[k - a.len()]);
        }
    }
}

proof fn lemma_code_literals()
    ensures
        "link_outside_wiki"@ != "orphan_concept"@,
        "link_target_invalid"@ != "orphan_concept"@,
        "index_drift"@ != "orphan_concept"@,
        "broken_link"@ != "orphan_concept"@,
        "supersedes_self"@ != "orphan_concept"@,
        "supersedes_invalid_target"@ != "orphan_concept"@,
        "source_version_missing"@ != "orphan_concept"@,
        "source_version_outdated"@ != "orphan_concept"@,
{
    reveal_strlit("orphan_concept");
    reveal_strlit("link_outside_wiki");
    reveal_strlit("link_target_invalid");
    reveal_strlit("index_drift");
    reveal_strlit("broken_link");
    reveal_strlit("supersedes_self");
    reveal_strlit("supersedes_invalid_target");
    reveal_strlit("source_version_missing");
    reveal_strlit("source_version_outdated");
    assert("link_outside_wiki"@.len() != "orphan_concept"@.len());
    assert("link_target_invalid"@.len() != "orphan_concept"@.len());
    assert("index_drift"@.len() != "orphan_concept"@.len());
    assert("broken_link"@.len() != "orphan_concept"@.len());
    assert("supersedes_self"@.len() != "orphan_concept"@.len());
    assert("supersedes_invalid_target"@.len() != "orphan_concept"@.len());
    assert("source_version_missing"@.len() != "orphan_concept"@.len());
    assert("source_version_outdated"@.len() != "orphan_concept"@.len());
}

proof fn lemma_links_codes(docs: Seq<LintDocView>, dirs: Seq<Seq<char>>, ds: Seq<LintDocView>)
    ensures
        no_orphan_code(pages_links_outcome(docs, dirs, ds).0),
    decreases ds.len(),
{
    if ds.len() > 0 {
        lemma_links_codes(docs, dirs, ds.drop_last());
        lemma_page_links_codes(docs, dirs, ds.last(), ds.last().links);
        lemma_codes_join(
            pages_links_outcome(docs, dirs, ds.drop_last()).0,
            links_outcome(docs, dirs, ds.last(), ds.last().links).0,
        );
    } else {
        assert(no_orphan_code(pages_links_outcome(docs, dirs, ds).0));
    }
}

proof fn lemma_page_links_codes(docs: Seq<LintDocView>, dirs: Seq<Seq<char>>, d: LintDocView, links: Seq<(Seq<char>, u64)>)
    ensures
        no_orphan_code(links_outcome(docs, dirs, d, links).0),
    decreases links.len(),
{
    if links.len() > 0 {
        lemma_page_links_codes(docs, dirs, d, links.drop_last());
        lemma_code_literals();
        let f2 = link_outcome(docs, dirs, d, links.last()).0;
        assert(no_orphan_code(f2));
        lemma_codes_join(links_outcome(docs, dirs, d, links.drop_last()).0, f2);
    } else {
        assert(no_orphan_code(links_outcome(docs, dirs, d, links).0));
    }
}

proof fn lemma_supersedes_codes(docs: Seq<LintDocView>, ds: Seq<LintDocView>)
    ensures
        no_orphan_code(pages_supersedes_outcome(docs, ds).0),
    decreases ds.len(),
{
    if ds.len() > 0 {
        lemma_supersedes_codes(docs, ds.drop_last());
        lemma_page_supersedes_codes(docs, ds.last(), ds.last().supersedes);
        lemma_codes_join(
            pages_supersedes_outcome(docs, ds.drop_last()).0,
            supersedes_outcome(docs, ds.last(), ds.last().supersedes).0,
        );
    } else {
        assert(no_orphan_code(pages_supersedes_outcome(docs, ds).0));
    }
}

proof fn lemma_page_supersedes_codes(docs: Seq<LintDocView>, d: LintDocView, vs: Seq<Seq<char>>)
    ensures
        no_orphan_code(supersedes_outcome(docs, d, vs).0),
    decreases vs.len(),
{
    if vs.len() > 0 {
        lemma_page_supersedes_codes(docs, d, vs.drop_last());
        lemma_code_literals();
        let f2 = supersede_outcome(docs, d, vs.last()).0;
        assert(no_orphan_code(f2));
        lemma_codes_join(supersedes_outcome(docs, d, vs.drop_last()).0, f2);
    } else {
        assert(no_orphan_code(supersedes_outcome(docs, d, vs).0));
    }
}

proof fn lemma_citations_codes(docs: Seq<LintDocView>, versions: Seq<(Seq<char>, bool)>, ds: Seq<LintDocView>)
    ensures
        no_orphan_code(pages_citations_outcome(docs, versions, ds).0),
    decreases ds.len(),
{
    if ds.len() > 0 {
        lemma_citations_codes(docs, versions, ds.drop_last());
        lemma_page_citations(docs, versions, ds.last(), ds.last().sources);
        lemma_codes_join(
            pages_citations_outcome(docs, versions, ds.drop_last()).0,
            citations_outcome(docs, versions, ds.last(), ds.last().sources).0,
        );
    } else {
        assert(no_orphan_code(pages_citations_outcome(docs, versions, ds).0));
    }
}

/// The existing Wiki page, other than the citing page `d`, that a cited
/// reference resolves to.
pub open spec fn cited_page(docs: Seq<LintDocView>, d: LintDocView, reference: Seq<char>) -> Option<Seq<char>> {
    match wiki_target(d.path, reference) {
        TargetView::Wiki(t) => if kind_at(docs, t) is Some && t != d.path { Some(t) } else { None },
        _ => None,
    }
}

proof fn lemma_citation_one(docs: Seq<LintDocView>, versions: Seq<(Seq<char>, bool)>, d: LintDocView, c: (Seq<char>, Option<u64>))
    ensures
        no_orphan_code(citation_outcome(docs, versions, d, c).0),
        !starts_with(c.0, "kb-source://"@) && cited_page(docs, d, c.0) is Some
            ==> citation_outcome(docs, versions, d, c).1 == seq![cited_page(docs, d, c.0)->Some_0],
{
    reveal(citation_outcome);
    lemma_code_literals();
}

/// The findings of a page's cited sources are never orphan reports, and a
/// cited source that resolves to another existing Wiki page counts that page
/// as linked.
proof fn lemma_page_citations(docs: Seq<LintDocView>, versions: Seq<(Seq<char>, bool)>, d: LintDocView, cs: Seq<(Seq<char>, Option<u64>)>)
    ensures
        no_orphan_code(citations_outcome(docs, versions, d, cs).0),
        forall|j: int| 0 <= j < cs.len() && !starts_with(#[trigger] cs[j].0, "kb-source://"@)
            && cited_page(docs, d, cs[j].0) is Some
            ==> citations_outcome(docs, versions, d, cs).1.contains(cited_page(docs, d, cs[j].0)->Some_0),
    decreases cs.len(),
{
    if cs.len() > 0 {
        let init = cs.drop_last();
        lemma_page_citations(docs, versions, d, init);
        lemma_citation_one(docs, versions, d, cs.last());
        let (f, i) = citations_outcome(docs, versions, d, init);
        let (f2, i2) = citation_outcome(docs, versions, d, cs.last());
        lemma_codes_join(f, f2);
        assert forall|j: int| 0 <= j < cs.len() && !starts_with(#[trigger] cs[j].0, "kb-source://"@)
            && cited_page(docs, d, cs[j].0) is Some
            implies citations_outcome(docs, versions, d, cs).1.contains(cited_page(docs, d, cs[j].0)->Some_0) by {
            let t = cited_page(docs, d, cs[j].0)->Some_0;
            if j < init.len() {
                assert(init[j] == cs[j]);
                let k = choose|k: int| 0 <= k < i.len() && i[k] == t;
                assert((i + i2)[k] == t);
            } else {
                assert(i2 == seq![t]);
                assert((i + i2)[i.len() as int] == t);
            }
        }
    } else {
        assert(no_orphan_code(citations_outcome(docs, versions, d, cs).0));
    }
}

proof fn lemma_pages_citations_contain(docs: Seq<LintDocView>, versions: Seq<(Seq<char>, bool)>, ds: Seq<LintDocView>, p: int, j: int, t: Seq<char>)
    requires
        0 <= p < ds.len(),
        0 <= j < ds[p].sources.len(),
        !starts_with(ds[p].sources[j].0, "kb-source://"@),
        wiki_target(ds[p].path, ds[p].sources[j].0) == TargetView::Wiki(t),
        kind_at(docs, t) is Some,
        t != ds[p].path,
    ensures
        pages_citations_outcome(docs, versions, ds).1.contains(t),
    decreases ds.len(),
{
    let init = ds.drop_last();
    let (f, i) = pages_citations_outcome(docs, versions, init);
    let (f2, i2) = citations_outcome(docs, versions, ds.last(), ds.last().sources);
    if p < init.len() {
        assert(init[p] == ds[p]);
        lemma_pages_citations_contain(docs, versions, init, p, j, t);
        let k = choose|k: int| 0 <= k < i.len() && i[k] == t;
        assert((i + i2)[k] == t);
    } else {
        lemma_page_citations(docs, versions, ds.last(), ds.last().sources);
        assert(ds.last().sources[j].0 == ds[p].sources[j].0);
        assert(cited_page(docs, ds.last(), ds.last().sources[j].0) == Some(t));
        let k = choose|k: int| 0 <= k < i2.len() && i2[k] == t;
        assert((i + i2)[i.len() + k] == t);
    }
}

proof fn lemma_kind_at_present(docs: Seq<LintDocView>, q: int)
    requires
        0 <= q < docs.len(),
    ensures
        kind_at(docs, docs[q].path) is Some,
    decreases docs.len(),
{
    if docs.last().path != docs[q].path {
        assert(q < docs.len() - 1);
        assert(docs.drop_last()[q] == docs[q]);
        lemma_kind_at_present(docs.drop_last(), q);
    }
}

proof fn lemma_orphans_skip_linked(ds: Seq<LintDocView>, incoming: Seq<Seq<char>>, t: Seq<char>)
    requires
        incoming.contains(t),
    ensures
        forall|k: int| 0 <= k < orphans(ds, incoming).len() ==> (#[trigger] orphans(ds, incoming)[k]).path != t,
    decreases ds.len(),
{
    if ds.len() > 0 {
        lemma_orphans_skip_linked(ds.drop_last(), incoming, t);
        let r = orphans(ds.drop_last(), incoming);
        assert forall|k: int| 0 <= k < orphans(ds, incoming).len() implies (#[trigger] orphans(ds, incoming)[k]).path != t by {
            if k < r.len() {
                assert(orphans(ds, incoming)[k] == r[k]);
            }
        }
    }
}

proof fn lemma_linked_not_orphan(docs: Seq<LintDocView>, dirs: Seq<Seq<char>>, versions: Seq<(Seq<char>, bool)>, t: Seq<char>)
    requires
        (pages_links_outcome(docs, dirs, docs).1 + pages_supersedes_outcome(docs, docs).1
            + pages_citations_outcome(docs, versions, docs).1).contains(t),
    ensures
        forall|k: int| 0 <= k < lint_outcome(docs, dirs, versions).len()
            ==> !((#[trigger] lint_outcome(docs, dirs, versions)[k]).code == "orphan_concept"@
                && lint_outcome(docs, dirs, versions)[k].path == t),
{
    let (lf, li) = pages_links_outcome(docs, dirs, docs);
    let (sf, si) = pages_supersedes_outcome(docs, docs);
    let (cf, ci) = pages_citations_outcome(docs, versions, docs);
    let inc = li + si + ci;
    lemma_orphans_skip_linked(docs, inc, t);
    lemma_links_codes(docs, dirs, docs);
    lemma_supersedes_codes(docs, docs);
    lemma_citations_codes(docs, versions, docs);
    lemma_codes_join(lf, sf);
    lemma_codes_join(lf + sf, cf);
    let all = lint_outcome(docs, dirs, versions);
    let os = orphans(docs, inc);
    assert(all == lf + sf + cf + os);
    assert forall|k: int| 0 <= k < all.len() implies !((#[trigger] all[k]).code == "orphan_concept"@ && all[k].path == t) by {
        if k < (lf + sf + cf).len() {
            assert(all[k] == (lf + sf + cf)[k]);
        } else {
            assert(all[k] == os[k - (lf + sf + cf).len()]);
        }
    }
}

proof fn lemma_in_joined(a: Seq<Seq<char>>, b: Seq<Seq<char>>, c: Seq<Seq<char>>, t: Seq<char>)
    requires
        a.contains(t) || b.contains(t) || c.contains(t),
    ensures
        (a + b + c).contains(t),
{
    if a.contains(t) {
        let k = choose|k: int| 0 <= k < a.len() && a[k] == t;
        assert((a + b + c)[k] == t);
    } else if b.contains(t) {
        let k = choose|k: int| 0 <= k < b.len() && b[k] == t;
        assert((a + b + c)[a.len() + k] == t);
    } else {
        let k = choose|k: int| 0 <= k < c.len() && c[k] == t;
        assert((a + b + c)[a.len() + b.len() + k] == t);
    }
}

/// A page that another page cites as a Wiki source, where the citation
/// resolves to that existing page, is never reported as an orphaned concept.
pub proof fn cited_pages_are_not_orphans(
    docs: Seq<LintDocView>,
    dirs: Seq<Seq<char>>,
    versions: Seq<(Seq<char>, bool)>,
    p: int,
    j: int,
    q: int,
)
    requires
        0 <= p < docs.len(),
        0 <= j < docs[p].sources.len(),
        0 <= q < docs.len(),
        !starts_with(docs[p].sources[j].0, "kb-source://"@),
        wiki_target(docs[p].path, docs[p].sources[j].0) == TargetView::Wiki(docs[q].path),
        docs[q].path != docs[p].path,
    ensures
        forall|k: int| 0 <= k < lint_outcome(docs, dirs, versions).len()
            ==> !((#[trigger] lint_outcome(docs, dirs, versions)[k]).code == "orphan_concept"@
                && lint_outcome(docs, dirs, versions)[k].path == docs[q].path),
{
    let t = docs[q].path;
    lemma_kind_at_present(docs, q);
    lemma_pages_citations_contain(docs, versions, docs, p, j, t);
    lemma_in_joined(pages_links_outcome(docs, dirs, docs).1, pages_supersedes_outcome(docs, docs).1,
        pages_citations_outcome(docs, versions, docs).1, t);
    lemma_linked_not_orphan(docs, dirs, versions, t);
}

proof fn lemma_page_links_contain(docs: Seq<LintDocView>, dirs: Seq<Seq<char>>, d: LintDocView, links: Seq<(Seq<char>, u64)>, j: int, t: Seq<char>)
    requires
        0 <= j < links.len(),
        wiki_target(d.path, links[j].0) == TargetView::Wiki(t),
        !dirs.contains(t),
        kind_at(docs, t) is Some,
        t != d.path,
    ensures
        links_outcome(docs, dirs, d, links).1.contains(t),
    decreases links.len(),
{
    let init = links.drop_last();
    let (f, i) = links_outcome(docs, dirs, d, init);
    let (f2, i2) = link_outcome(docs, dirs, d, links.last());
    if j < init.len() {
        assert(init[j] == links[j]);
        lemma_page_links_contain(docs, dirs, d, init, j, t);
        let k = choose|k: int| 0 <= k < i.len() && i[k] == t;
        assert((i + i2)[k] == t);
    } else {
        assert(i2 == seq![t]);
        assert((i + i2)[i.len() as int] == t);
    }
}

proof fn lemma_pages_links_contain(docs: Seq<LintDocView>, dirs: Seq<Seq<char>>, ds: Seq<LintDocView>, p: int, j: int, t: Seq<char>)
    requires
        0 <= p < ds.len(),
        0 <= j < ds[p].links.len(),
        wiki_target(ds[p].path, ds[p].links[j].0) == TargetView::Wiki(t),
        !dirs.contains(t),
        kind_at(docs, t) is Some,
        t != ds[p].path,
    ensures
        pages_links_outcome(docs, dirs, ds).1.contains(t),
    decreases ds.len(),
{
    let init = ds.drop_last();
    let (f, i) = pages_links_outcome(docs, dirs, init);
    let (f2, i2) = links_outcome(docs, dirs, ds.last(), ds.last().links);
    if p < init.len() {
        assert(init[p] == ds[p]);
        lemma_pages_links_contain(docs, dirs, init, p, j, t);
        let k = choose|k: int| 0 <= k < i.len() && i[k] == t;
        assert((i + i2)[k] == t);
    } else {
        lemma_page_links_contain(docs, dirs, ds.last(), ds.last().links, j, t);
        let k = choose|k: int| 0 <= k < i2.len() && i2[k] == t;
        assert((i + i2)[i.len() + k] == t);
    }
}

/// A page that another page links to with a Markdown link resolving to that
/// existing page (not a directory) is never reported as an orphaned concept.
pub proof fn linked_pages_are_not_orphans(
    docs: Seq<LintDocView>,
    dirs: Seq<Seq<char>>,
    versions: Seq<(Seq<char>, bool)>,
    p: int,
    j: int,
    q: int,
)
    requires
        0 <= p < docs.len(),
        0 <= j < docs[p].links.len(),
        0 <= q < docs.len(),
        wiki_target(docs[p].path, docs[p].links[j].0) == TargetView::Wiki(docs[q].path),
        !dirs.contains(docs[q].path),
        docs[q].path != docs[p].path,
    ensures
        forall|k: int| 0 <= k < lint_outcome(docs, dirs, versions).len()
            ==> !((#[trigger] lint_outcome(docs, dirs, versions)[k]).code == "orphan_concept"@
                && lint_outcome(docs, dirs, versions)[k].path == docs[q].path),
{
    let t = docs[q].path;
    lemma_kind_at_present(docs, q);
    lemma_pages_links_contain(docs, dirs, docs, p, j, t);
    lemma_in_joined(pages_links_outcome(docs, dirs, docs).1, pages_supersedes_outcome(docs, docs).1,
        pages_citations_outcome(docs, versions, docs).1, t);
    lemma_linked_not_orphan(docs, dirs, versions, t);
}

/// A concept under `Wiki/research/` or `Wiki/articles/` that no page links
/// to, supersedes or cites is reported once as an orphaned concept.
pub proof fn unlinked_concepts_are_orphans(docs: Seq<LintDocView>, dirs: Seq<Seq<char>>, versions: Seq<(Seq<char>, bool)>, q: int)
    requires
        0 <= q < docs.len(),
        docs[q].kind == OkfDocumentKind::Concept,
        starts_with(docs[q].path, "Wiki/research/"@) || starts_with(docs[q].path, "Wiki/articles/"@),
        !(pages_links_outcome(docs, dirs, docs).1 + pages_supersedes_outcome(docs, docs).1
            + pages_citations_outcome(docs, versions, docs).1).contains(docs[q].path),
    ensures
        lint_outcome(docs, dirs, versions).contains(orphan_view(docs[q].path)),
{
    let inc = pages_links_outcome(docs, dirs, docs).1 + pages_supersedes_outcome(docs, docs).1
        + pages_citations_outcome(docs, versions, docs).1;
    lemma_orphans_include(docs, inc, q);
    let (lf, li) = pages_links_outcome(docs, dirs, docs);
    let (sf, si) = pages_supersedes_outcome(docs, docs);
    let (cf, ci) = pages_citations_outcome(docs, versions, docs);
    let os = orphans(docs, inc);
    let k = choose|k: int| 0 <= k < os.len() && os[k] == orphan_view(docs[q].path);
    let all = lint_outcome(docs, dirs, versions);
    assert(all == lf + sf + cf + os);
    assert(all[(lf + sf + cf).len() + k] == os[k]);
}

proof fn lemma_orphans_include(ds: Seq<LintDocView>, incoming: Seq<Seq<char>>, q: int)
    requires
        0 <= q < ds.len(),
        is_orphan(ds[q], incoming),
    ensures
        orphans(ds, incoming).contains(orphan_view(ds[q].path)),
    decreases ds.len(),
{
    let r = orphans(ds.drop_last(), incoming);
    if q < ds.len() - 1 {
        assert(ds.drop_last()[q] == ds[q]);
        lemma_orphans_include(ds.drop_last(), incoming, q);
        let k = choose|k: int| 0 <= k < r.len() && r[k] == orphan_view(ds[q].path);
        if is_orphan(ds.last(), incoming) {
            assert(orphans(ds, incoming)[k] == r[k]);
        } else {
            assert(orphans(ds, incoming)[k] == r[k]);
        }
    } else {
        assert(orphans(ds, incoming)[r.len() as int] == orphan_view(ds[q].path));
    }
}

} // verus!
