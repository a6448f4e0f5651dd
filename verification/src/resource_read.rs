//! Reading one knowledge resource: resolving the links of a Wiki page,
//! building what a resource holds and handing it out page by page.
use vstd::prelude::*;
use crate::archive::{last_index, last_index_exec};
use crate::error::{ErrorCode, KbError};
use crate::extract::{
    block_views, document_view, extract_bytes, extraction_agrees, text_media, BlockView, DocumentView, ExtractionStatus,
    MediaType,
};
use crate::docx::{link_views, LinkView};
use crate::source_io::{hash, hex_chars, sha256_digest};
use vstd::utf8::{decode_utf8, encode_utf8, valid_utf8};
use crate::text::{
    ascii_lower, chars_of, contains_char, ends_with, ends_with_exec, equal_chars, find_char, find_from, index_of, join,
    join_chars, occurs_at, slice_vec, split_char, split_on, split_state, decimal, starts_with, starts_with_exec, string_of, to_ascii_lower,
    vviews,
};

verus! {

/// Where `p` first occurs in `s`, or -1.
pub open spec fn first_at(s: Seq<char>, p: Seq<char>) -> int {
    if exists|i: int| occurs_at(s, p, i) {
        choose|i: int| occurs_at(s, p, i) && forall|k: int| 0 <= k < i ==> !occurs_at(s, p, k)
    } else {
        -1
    }
}

pub(crate) proof fn lemma_first_at(s: Seq<char>, p: Seq<char>, i: int)
    requires
        occurs_at(s, p, i),
        forall|k: int| 0 <= k < i ==> !occurs_at(s, p, k),
    ensures
        first_at(s, p) == i,
{
    let j = first_at(s, p);
    assert(occurs_at(s, p, j) && forall|k: int| 0 <= k < j ==> !occurs_at(s, p, k));
    if j < i {
        assert(!occurs_at(s, p, j));
    }
    if i < j {
        assert(!occurs_at(s, p, i));
    }
}

/// Fold path segments as `Path::components` reads them: empty and `.`
/// segments are skipped, `..` removes the segment before it (and fails when
/// there is none), any other segment is kept.
pub open spec fn resolve_segments(segs: Seq<Seq<char>>) -> Option<Seq<Seq<char>>>
    decreases segs.len(),
{
    if segs.len() == 0 {
        Some(Seq::empty())
    } else {
        match resolve_segments(segs.drop_last()) {
            None => None,
            Some(acc) => {
                let seg = segs.last();
                if seg.len() == 0 || seg == "."@ {
                    Some(acc)
                } else if seg == ".."@ {
                    if acc.len() == 0 {
                        None
                    } else {
                        Some(acc.drop_last())
                    }
                } else {
                    Some(acc.push(seg))
                }
            },
        }
    }
}

/// The segments of a path's parent: its segments without the last component
/// (trailing empty and `.` segments are not components).
pub open spec fn parent_segments(segs: Seq<Seq<char>>) -> Seq<Seq<char>>
    decreases segs.len(),
{
    if segs.len() == 0 {
        segs
    } else if segs.last().len() == 0 || segs.last() == "."@ {
        parent_segments(segs.drop_last())
    } else {
        segs.drop_last()
    }
}

/// The Vault path a relative link of a page at `source` points to: the part
/// before any `#`, resolved against the page's directory; only Markdown
/// pages under `Wiki/` count. Empty, absolute and scheme-bearing targets
/// point nowhere.
pub open spec fn wiki_link(source: Seq<char>, destination: Seq<char>) -> Option<Seq<char>> {
    let target = split_on(destination, '#')[0];
    if target.len() == 0 || target[0] == '/' || target.contains(':') || source.len() == 0 || source[0] == '/' {
        None
    } else {
        match resolve_segments(parent_segments(split_on(source, '/')) + split_on(target, '/')) {
            None => None,
            Some(parts) => {
                let n = join(parts, "/"@);
                if starts_with(n, "Wiki/"@) && ends_with(ascii_lower(n), ".md"@) {
                    Some(n)
                } else {
                    None
                }
            },
        }
    }
}

fn parent_segments_exec(all: Vec<Vec<char>>) -> (out: Vec<Vec<char>>)
    ensures
        vviews(out@) == parent_segments(vviews(all@)),
{
    let ghost original = vviews(all@);
    let mut segs = all;
    let dot = chars_of(".");
    let mut done = false;
    while !done && segs.len() > 0
        invariant
            done ==> vviews(segs@) == parent_segments(original),
            !done ==> parent_segments(vviews(segs@)) == parent_segments(original),
            dot@ == "."@,
        decreases segs@.len(),
    {
        let n = segs.len();
        let last_is_skipped = segs[n - 1].len() == 0 || equal_chars(segs[n - 1].as_slice(), dot.as_slice());
        let ghost before = segs@;
        segs.pop();
        proof {
            assert(vviews(segs@) =~= vviews(before).drop_last());
            assert(vviews(before).last() == before[n - 1]@);
        }
        if !last_is_skipped {
            done = true;
        }
    }
    segs
}

fn resolve_segments_exec(segs: &Vec<Vec<char>>) -> (r: Option<Vec<Vec<char>>>)
    ensures
        match r {
            Some(v) => resolve_segments(vviews(segs@)) == Some(vviews(v@)),
            None => resolve_segments(vviews(segs@)) is None,
        },
{
    let dot = chars_of(".");
    let dots = chars_of("..");
    let mut acc: Vec<Vec<char>> = Vec::new();
    let mut i: usize = 0;
    proof {
        assert(vviews(segs@).take(0) =~= Seq::<Seq<char>>::empty());
        assert(vviews(acc@) =~= Seq::<Seq<char>>::empty());
    }
    while i < segs.len()
        invariant
            i <= segs@.len(),
            dot@ == "."@,
            dots@ == ".."@,
            resolve_segments(vviews(segs@).take(i as int)) == Some(vviews(acc@)),
        decreases segs@.len() - i,
    {
        proof {
            assert(vviews(segs@).take(i + 1).drop_last() =~= vviews(segs@).take(i as int));
            assert(vviews(segs@).take(i + 1).last() == segs@[i as int]@);
        }
        let seg = &segs[i];
        if seg.len() == 0 || equal_chars(seg.as_slice(), dot.as_slice()) {
        } else if equal_chars(seg.as_slice(), dots.as_slice()) {
            if acc.len() == 0 {
                proof {
                    lemma_resolve_stays_none(vviews(segs@), i as int + 1);
                    assert(vviews(segs@).take(segs@.len() as int) =~= vviews(segs@));
                }
                return None;
            }
            let ghost before = acc@;
            acc.pop();
            proof {
                assert(vviews(acc@) =~= vviews(before).drop_last());
            }
        } else {
            let ghost before = acc@;
            acc.push(seg.clone());
            proof {
                assert(vviews(acc@) =~= vviews(before).push(seg@));
            }
        }
        i = i + 1;
    }
    proof {
        assert(vviews(segs@).take(segs@.len() as int) =~= vviews(segs@));
    }
    Some(acc)
}

proof fn lemma_resolve_stays_none(segs: Seq<Seq<char>>, i: int)
    requires
        0 <= i <= segs.len(),
        resolve_segments(segs.take(i)) is None,
    ensures
        resolve_segments(segs) is None,
    decreases segs.len() - i,
{
    if i < segs.len() {
        assert(segs.take(i + 1).drop_last() =~= segs.take(i));
        lemma_resolve_stays_none(segs, i + 1);
    } else {
        assert(segs.take(i) =~= segs);
    }
}

/// Resolve a relative link of a Wiki page (see `wiki_link`).
pub fn resolve_wiki_link(source: &str, destination: &str) -> (r: Option<String>)
    ensures
        match r {
            Some(t) => wiki_link(source@, destination@) == Some(t@),
            None => wiki_link(source@, destination@) is None,
        },
{
    let d = chars_of(destination);
    let pieces = split_char(d.as_slice(), '#');
    proof {
        assert(vviews(pieces@).len() > 0);
    }
    let target = pieces[0].clone();
    proof {
        assert(target@ == split_on(destination@, '#')[0]);
    }
    let s = chars_of(source);
    if target.len() == 0 || target[0] == '/' || contains_char(target.as_slice(), ':') || s.len() == 0 || s[0] == '/' {
        return None;
    }
    let parent = parent_segments_exec(split_char(s.as_slice(), '/'));
    let mut segs = parent;
    let mut rest = split_char(target.as_slice(), '/');
    let ghost a = vviews(segs@);
    let ghost b = vviews(rest@);
    segs.append(&mut rest);
    proof {
        assert(vviews(segs@) =~= a + b);
    }
    let parts = match resolve_segments_exec(&segs) {
        Some(p) => p,
        None => {
            return None;
        },
    };
    let sep = chars_of("/");
    let n = join_chars(&parts, sep.as_slice());
    let lower = to_ascii_lower(n.as_slice());
    let wiki = chars_of("Wiki/");
    let md = chars_of(".md");
    if starts_with_exec(n.as_slice(), wiki.as_slice()) && ends_with_exec(lower.as_slice(), md.as_slice()) {
        Some(string_of(n.as_slice()))
    } else {
        None
    }
}

/// The `[label](destination)` pairs of Markdown text, read left to right:
/// each `](` closes the label opened by the last `[` before it, and the
/// destination runs to the next `)`; scanning stops at a `](` with no `)`
/// after it.
#[verifier::opaque]
pub open spec fn link_pairs(r: Seq<char>) -> Seq<(Seq<char>, Seq<char>)>
    decreases r.len(),
{
    let le = first_at(r, "]("@);
    if le < 0 || le + 2 > r.len() {
        Seq::empty()
    } else {
        let rest = r.skip(le + 2);
        let ls = last_index(r.take(le), '[');
        if ls < 0 {
            link_pairs(rest)
        } else {
            let de = index_of(rest, ')');
            if de < 0 || de >= rest.len() {
                Seq::empty()
            } else {
                seq![(r.subrange(ls + 1, le), rest.take(de))] + link_pairs(rest.skip(de + 1))
            }
        }
    }
}

pub open spec fn char_pairs(v: Seq<(Vec<char>, Vec<char>)>) -> Seq<(Seq<char>, Seq<char>)> {
    v.map_values(|p: (Vec<char>, Vec<char>)| (p.0@, p.1@))
}

proof fn lemma_occurs_shift(t: Seq<char>, p: Seq<char>, pos: int, j: int)
    requires
        0 <= pos <= t.len(),
        0 <= j,
    ensures
        occurs_at(t.skip(pos), p, j) == occurs_at(t, p, pos + j),
{
    if occurs_at(t, p, pos + j) {
        assert(t.skip(pos).subrange(j, j + p.len()) =~= t.subrange(pos + j, pos + j + p.len()));
    }
    if occurs_at(t.skip(pos), p, j) {
        assert(t.skip(pos).subrange(j, j + p.len()) =~= t.subrange(pos + j, pos + j + p.len()));
    }
}

/// One step of the link scan from `pos`: nothing more (`None`), or where
/// the scan goes on and the pair found on the way, if any.
fn link_scan_step(text: &[char], pos: usize) -> (r: Option<(usize, Option<(Vec<char>, Vec<char>)>)>)
    requires
        pos <= text@.len(),
    ensures
        match r {
            None => link_pairs(text@.skip(pos as int)) == Seq::<(Seq<char>, Seq<char>)>::empty(),
            Some((next, found)) => pos < next <= text@.len() && match found {
                None => link_pairs(text@.skip(pos as int)) == link_pairs(text@.skip(next as int)),
                Some(pair) => link_pairs(text@.skip(pos as int)) == seq![(pair.0@, pair.1@)] + link_pairs(
                    text@.skip(next as int),
                ),
            },
        },
{
    let opener = chars_of("](");
    let ghost r = text@.skip(pos as int);
    proof {
        reveal_strlit("](");
        reveal(link_pairs);
        assert(opener@.len() == 2);
    }
    match find_from(text, opener.as_slice(), pos) {
        None => {
            proof {
                assert forall|j: int| !occurs_at(r, "]("@, j) by {
                    if 0 <= j {
                        lemma_occurs_shift(text@, "]("@, pos as int, j);
                    }
                }
                assert(first_at(r, "]("@) == -1);
            }
            None
        },
        Some(k) => {
            let n = text.len();
            assert(k + 2 <= n);
            let after = k + 2;
            let le = k - pos;
            proof {
                lemma_occurs_shift(text@, "]("@, pos as int, le as int);
                assert forall|j: int| 0 <= j < le implies !occurs_at(r, "]("@, j) by {
                    lemma_occurs_shift(text@, "]("@, pos as int, j);
                }
                lemma_first_at(r, "]("@, le as int);
                assert(r.skip(le + 2) =~= text@.skip(k + 2));
            }
            let before = slice_vec(text, pos, k);
            proof {
                assert(before@ =~= r.take(le as int));
            }
            match last_index_exec(before.as_slice(), '[') {
                None => Some((after, None)),
                Some(ls) => {
                    let rest = slice_vec(text, after, n);
                    proof {
                        assert(rest@ =~= r.skip(le + 2));
                    }
                    match find_char(rest.as_slice(), ')') {
                        None => {
                            proof {
                                crate::text::lemma_index_of(rest@, ')', rest@.len() as int);
                            }
                            None
                        },
                        Some(de) => {
                            proof {
                                crate::text::lemma_index_of(rest@, ')', de as int);
                            }
                            let label = slice_vec(text, pos + ls + 1, k);
                            let destination = slice_vec(rest.as_slice(), 0, de);
                            proof {
                                assert(label@ =~= r.subrange(ls + 1, le as int));
                                assert(destination@ =~= r.skip(le + 2).take(de as int));
                                assert(r.skip(le + 2).skip(de + 1) =~= text@.skip(k + 2 + de + 1));
                            }
                            Some((k + 2 + de + 1, Some((label, destination))))
                        },
                    }
                },
            }
        },
    }
}

/// The label and destination pairs of Markdown text (see `link_pairs`).
pub fn markdown_link_pairs(text: &[char]) -> (out: Vec<(Vec<char>, Vec<char>)>)
    ensures
        char_pairs(out@) == link_pairs(text@),
{
    let mut out: Vec<(Vec<char>, Vec<char>)> = Vec::new();
    let mut pos: usize = 0;
    let mut done = false;
    proof {
        assert(text@.skip(0) =~= text@);
        assert(char_pairs(out@) + link_pairs(text@) =~= link_pairs(text@));
    }
    while !done
        invariant
            pos <= text@.len(),
            !done ==> char_pairs(out@) + link_pairs(text@.skip(pos as int)) == link_pairs(text@),
            done ==> char_pairs(out@) == link_pairs(text@),
        decreases text@.len() - pos + if done { 0int } else { 1int },
    {
        let ghost acc = char_pairs(out@);
        match link_scan_step(text, pos) {
            None => {
                proof {
                    assert(acc + Seq::<(Seq<char>, Seq<char>)>::empty() =~= acc);
                }
                done = true;
            },
            Some((next, None)) => {
                pos = next;
            },
            Some((next, Some(pair))) => {
                let ghost item = (pair.0@, pair.1@);
                out.push(pair);
                proof {
                    assert(char_pairs(out@) =~= acc.push(item));
                    assert(acc.push(item) + link_pairs(text@.skip(next as int)) =~= acc + (seq![item] + link_pairs(
                        text@.skip(next as int),
                    )));
                }
                pos = next;
            },
        }
    }
    out
}

/// What kind of resource was read.
#[derive(Debug, Clone, Copy, PartialEq, Eq, Structural)]
pub enum ResourceKind {
    Rules,
    Wiki,
    Source,
}

/// A link found in a resource: its label, where it points, whether that
/// Vault page exists (for internal links) and whether it leaves the Vault.
#[derive(Debug, Clone)]
pub struct ResourceLink {
    pub label: String,
    pub target_uri: String,
    pub exists: Option<bool>,
    pub external: bool,
}

/// A link as values.
pub struct LinkInfo {
    pub label: Seq<char>,
    pub target_uri: Seq<char>,
    pub exists: Option<bool>,
    pub external: bool,
}

pub open spec fn link_info(l: ResourceLink) -> LinkInfo {
    LinkInfo { label: l.label@, target_uri: l.target_uri@, exists: l.exists, external: l.external }
}

pub open spec fn link_infos(v: Seq<ResourceLink>) -> Seq<LinkInfo> {
    v.map_values(|l: ResourceLink| link_info(l))
}

/// A destination on the web.
pub open spec fn is_external(destination: Seq<char>) -> bool {
    starts_with(destination, "https://"@) || starts_with(destination, "http://"@)
}

/// The link of one Markdown pair on the page at `source` of Vault
/// `vault_id`: web destinations are external; relative Wiki pages become
/// `kb-vault://` addresses, marked as existing when they are among
/// `present`; anything else is no link.
pub open spec fn page_link(
    source: Seq<char>,
    vault_id: Seq<char>,
    present: Seq<Seq<char>>,
    label: Seq<char>,
    destination: Seq<char>,
) -> Option<LinkInfo> {
    if is_external(destination) {
        Some(LinkInfo { label, target_uri: destination, exists: None, external: true })
    } else {
        match wiki_link(source, destination) {
            Some(t) => Some(
                LinkInfo {
                    label,
                    target_uri: "kb-vault://"@ + vault_id + "/"@ + t,
                    exists: Some(present.contains(t)),
                    external: false,
                },
            ),
            None => None,
        }
    }
}

/// The links of a page, in the order their pairs occur.
pub open spec fn page_links(
    source: Seq<char>,
    vault_id: Seq<char>,
    present: Seq<Seq<char>>,
    pairs: Seq<(Seq<char>, Seq<char>)>,
) -> Seq<LinkInfo>
    decreases pairs.len(),
{
    if pairs.len() == 0 {
        Seq::empty()
    } else {
        let r = page_links(source, vault_id, present, pairs.drop_last());
        match page_link(source, vault_id, present, pairs.last().0, pairs.last().1) {
            Some(l) => r.push(l),
            None => r,
        }
    }
}

/// The Wiki pages a page links to, in order (see `wiki_link`).
pub open spec fn page_targets(source: Seq<char>, pairs: Seq<(Seq<char>, Seq<char>)>) -> Seq<Seq<char>>
    decreases pairs.len(),
{
    if pairs.len() == 0 {
        Seq::empty()
    } else {
        let r = page_targets(source, pairs.drop_last());
        if is_external(pairs.last().1) {
            r
        } else {
            match wiki_link(source, pairs.last().1) {
                Some(t) => r.push(t),
                None => r,
            }
        }
    }
}

fn is_external_exec(d: &[char]) -> (b: bool)
    ensures
        b == is_external(d@),
{
    let https = chars_of("https://");
    let http = chars_of("http://");
    starts_with_exec(d, https.as_slice()) || starts_with_exec(d, http.as_slice())
}

fn listed(present: &Vec<String>, t: &[char]) -> (b: bool)
    ensures
        b == crate::text::views(present@).contains(t@),
{
    let ghost pv = crate::text::views(present@);
    let mut i: usize = 0;
    while i < present.len()
        invariant
            i <= present@.len(),
            pv == crate::text::views(present@),
            forall|k: int| 0 <= k < i ==> pv[k] != t@,
        decreases present@.len() - i,
    {
        let c = chars_of(present[i].as_str());
        if equal_chars(c.as_slice(), t) {
            proof {
                assert(pv[i as int] == t@);
            }
            return true;
        }
        i = i + 1;
    }
    false
}

/// The Wiki pages that a Markdown page at `source` links to, in the order of
/// its links: the pages whose existence its links report.
pub fn wiki_link_targets(source: &str, text: &str) -> (out: Vec<String>)
    ensures
        crate::text::views(out@) == page_targets(source@, link_pairs(text@)),
{
    let t = chars_of(text);
    let pairs = markdown_link_pairs(t.as_slice());
    let ghost pv = char_pairs(pairs@);
    let mut out: Vec<String> = Vec::new();
    let mut i: usize = 0;
    proof {
        assert(pv.take(0) =~= Seq::<(Seq<char>, Seq<char>)>::empty());
        assert(crate::text::views(out@) =~= Seq::<Seq<char>>::empty());
    }
    while i < pairs.len()
        invariant
            i <= pairs@.len(),
            pv == char_pairs(pairs@),
            crate::text::views(out@) == page_targets(source@, pv.take(i as int)),
        decreases pairs@.len() - i,
    {
        proof {
            assert(pv.take(i + 1).drop_last() =~= pv.take(i as int));
            assert(pv.take(i + 1).last() == pv[i as int]);
        }
        let d = &pairs[i].1;
        if !is_external_exec(d.as_slice()) {
            let ds = string_of(d.as_slice());
            match resolve_wiki_link(source, ds.as_str()) {
                Some(target) => {
                    let ghost before = out@;
                    out.push(target);
                    proof {
                        assert(crate::text::views(out@) =~= crate::text::views(before).push(target@));
                    }
                },
                None => {},
            }
        }
        i = i + 1;
    }
    proof {
        assert(pv.take(pairs@.len() as int) =~= pv);
    }
    out
}

/// The links of a Markdown page at `source` in Vault `vault_id`, given which
/// of the pages it links to exist (see `page_links`).
pub fn markdown_links(source: &str, vault_id: &str, text: &str, present: &Vec<String>) -> (out: Vec<ResourceLink>)
    ensures
        link_infos(out@) == page_links(source@, vault_id@, crate::text::views(present@), link_pairs(text@)),
{
    let t = chars_of(text);
    let pairs = markdown_link_pairs(t.as_slice());
    let ghost pv = char_pairs(pairs@);
    let ghost pres = crate::text::views(present@);
    let mut out: Vec<ResourceLink> = Vec::new();
    let mut i: usize = 0;
    proof {
        assert(pv.take(0) =~= Seq::<(Seq<char>, Seq<char>)>::empty());
        assert(link_infos(out@) =~= Seq::<LinkInfo>::empty());
    }
    while i < pairs.len()
        invariant
            i <= pairs@.len(),
            pv == char_pairs(pairs@),
            pres == crate::text::views(present@),
            link_infos(out@) == page_links(source@, vault_id@, pres, pv.take(i as int)),
        decreases pairs@.len() - i,
    {
        proof {
            assert(pv.take(i + 1).drop_last() =~= pv.take(i as int));
            assert(pv.take(i + 1).last() == pv[i as int]);
        }
        let label = string_of(pairs[i].0.as_slice());
        let d = &pairs[i].1;
        let ds = string_of(d.as_slice());
        let ghost before = out@;
        if is_external_exec(d.as_slice()) {
            let l = ResourceLink { label, target_uri: ds, exists: None, external: true };
            out.push(l);
            proof {
                assert(link_infos(out@) =~= link_infos(before).push(link_info(l)));
            }
        } else {
            match resolve_wiki_link(source, ds.as_str()) {
                Some(target) => {
                    let mut u = chars_of("kb-vault://");
                    crate::text::append_chars(&mut u, chars_of(vault_id).as_slice());
                    crate::text::append_chars(&mut u, chars_of("/").as_slice());
                    let tc = chars_of(target.as_str());
                    crate::text::append_chars(&mut u, tc.as_slice());
                    let exists = listed(present, tc.as_slice());
                    let l = ResourceLink { label, target_uri: string_of(u.as_slice()), exists: Some(exists), external: false };
                    out.push(l);
                    proof {
                        assert(link_infos(out@) =~= link_infos(before).push(link_info(l)));
                    }
                },
                None => {},
            }
        }
        i = i + 1;
    }
    proof {
        assert(pv.take(pairs@.len() as int) =~= pv);
    }
    out
}

/// The content type reported for a media type.
pub open spec fn content_type_of(media: MediaType) -> Seq<char> {
    match media {
        MediaType::Markdown => "text/markdown"@,
        MediaType::PlainText => "text/plain"@,
        MediaType::Yaml => "application/yaml"@,
        MediaType::Json => "application/json"@,
        MediaType::Csv => "text/csv"@,
        MediaType::Html => "text/html"@,
        MediaType::Epub => "application/epub+zip"@,
        MediaType::Docx => "application/vnd.openxmlformats-officedocument.wordprocessingml.document"@,
        MediaType::Pdf => "application/pdf"@,
        MediaType::Other => "application/octet-stream"@,
    }
}

/// The content type of a media type (see `content_type_of`).
pub fn media_content_type(media: MediaType) -> (t: &'static str)
    ensures
        t@ == content_type_of(media),
{
    match media {
        MediaType::Markdown => "text/markdown",
        MediaType::PlainText => "text/plain",
        MediaType::Yaml => "application/yaml",
        MediaType::Json => "application/json",
        MediaType::Csv => "text/csv",
        MediaType::Html => "text/html",
        MediaType::Epub => "application/epub+zip",
        MediaType::Docx => "application/vnd.openxmlformats-officedocument.wordprocessingml.document",
        MediaType::Pdf => "application/pdf",
        MediaType::Other => "application/octet-stream",
    }
}

/// A resource error: not retryable, naming the resource.
pub fn resource_error(code: ErrorCode, uri: &str, message: &str, next_action: &str) -> (e: KbError)
    ensures
        e.code == code,
        e.message@ == message@,
        !e.retryable,
        e.remediation@ == next_action@,
        e.resource_uri matches Some(u) && u@ == uri@,
{
    KbError {
        code,
        message: message.to_owned(),
        retryable: false,
        remediation: next_action.to_owned(),
        resource_uri: Some(uri.to_owned()),
        findings: Vec::new(),
    }
}

/// A resource as read, before it is cut into pages.
#[derive(Debug)]
pub struct LoadedResource {
    pub uri: String,
    pub kind: ResourceKind,
    pub content_type: String,
    pub content: Option<String>,
    pub sha256: String,
    pub links: Vec<ResourceLink>,
    pub warnings: Vec<String>,
}

/// A read resource as values.
pub struct LoadedView {
    pub uri: Seq<char>,
    pub kind: ResourceKind,
    pub content_type: Seq<char>,
    pub content: Option<Seq<char>>,
    pub sha256: Seq<char>,
    pub links: Seq<LinkInfo>,
    pub warnings: Seq<Seq<char>>,
}

pub open spec fn loaded_view(l: LoadedResource) -> LoadedView {
    LoadedView {
        uri: l.uri@,
        kind: l.kind,
        content_type: l.content_type@,
        content: crate::extract::opt_view(l.content),
        sha256: l.sha256@,
        links: link_infos(l.links@),
        warnings: crate::text::views(l.warnings@),
    }
}

/// A Wiki page (or the Vault's rules, `KB.md`) as read: its UTF-8 text, the
/// digest of its bytes and its links.
pub open spec fn vault_loaded(
    uri: Seq<char>,
    path: Seq<char>,
    vault_id: Seq<char>,
    bytes: Seq<u8>,
    present: Seq<Seq<char>>,
) -> LoadedView {
    let text = decode_utf8(bytes);
    LoadedView {
        uri,
        kind: if path == "KB.md"@ { ResourceKind::Rules } else { ResourceKind::Wiki },
        content_type: "text/markdown"@,
        content: Some(text),
        sha256: hex_chars(sha256_digest(bytes)),
        links: page_links(path, vault_id, present, link_pairs(text)),
        warnings: Seq::empty(),
    }
}

/// Read a Vault page from its bytes (see `vault_loaded`); bytes that are not
/// UTF-8 are an unreadable resource.
pub fn vault_resource(uri: &str, path: &str, vault_id: &str, bytes: Vec<u8>, present: &Vec<String>) -> (r: Result<
    LoadedResource,
    KbError,
>)
    ensures
        match r {
            Ok(l) => valid_utf8(bytes@) && loaded_view(l) == vault_loaded(
                uri@,
                path@,
                vault_id@,
                bytes@,
                crate::text::views(present@),
            ),
            Err(e) => !valid_utf8(bytes@) && e.code == ErrorCode::ResourceNotReadable && (e.resource_uri matches Some(
                u,
            ) && u@ == uri@),
        },
{
    let text = match crate::text::utf8_text(bytes.as_slice()) {
        Ok(t) => t,
        Err(_) => {
            return Err(
                resource_error(
                    ErrorCode::ResourceNotReadable,
                    uri,
                    "Markdown resource is not valid UTF-8.",
                    "Repair the Markdown file and retry.",
                ),
            );
        },
    };
    let links = markdown_links(path, vault_id, text.as_str(), present);
    let pc = chars_of(path);
    let rules = chars_of("KB.md");
    let kind = if equal_chars(pc.as_slice(), rules.as_slice()) { ResourceKind::Rules } else { ResourceKind::Wiki };
    let sha256 = hash(bytes.as_slice());
    let warnings: Vec<String> = Vec::new();
    let l = LoadedResource {
        uri: uri.to_owned(),
        kind,
        content_type: "text/markdown".to_owned(),
        content: Some(text),
        sha256,
        links,
        warnings,
    };
    proof {
        assert(crate::text::views(l.warnings@) =~= Seq::<Seq<char>>::empty());
    }
    Ok(l)
}

/// What a saved source shows as text: a text format's own UTF-8 bytes, else
/// the extracted blocks (each without trailing whitespace) joined by blank
/// lines; nothing when extraction did not reach text.
pub open spec fn source_content(media: MediaType, bytes: Seq<u8>, ex: DocumentView) -> Option<Seq<char>> {
    if ex.status != ExtractionStatus::TextReady {
        None
    } else if text_media(media) {
        if valid_utf8(bytes) {
            Some(decode_utf8(bytes))
        } else {
            None
        }
    } else {
        Some(join(ex.blocks.map_values(|b: BlockView| crate::text::trim_end(b.text)), "\n\n"@))
    }
}

/// An extracted link as a resource link: labelled by its text, else its
/// target; external when it goes to the web.
pub open spec fn source_link(l: LinkView) -> LinkInfo {
    LinkInfo {
        label: match l.text {
            Some(t) => t,
            None => l.target,
        },
        target_uri: l.target,
        exists: None,
        external: is_external(l.target),
    }
}

/// A saved source version as read, given what was extracted from it.
pub open spec fn source_loaded(
    uri: Seq<char>,
    media: MediaType,
    sha256: Seq<char>,
    bytes: Seq<u8>,
    ex: DocumentView,
) -> LoadedView {
    LoadedView {
        uri,
        kind: ResourceKind::Source,
        content_type: content_type_of(media),
        content: source_content(media, bytes, ex),
        sha256,
        links: ex.links.map_values(|l: LinkView| source_link(l)),
        warnings: ex.warnings,
    }
}

fn block_texts(blocks: &Vec<crate::extract::ExtractedBlock>) -> (out: Vec<char>)
    ensures
        out@ == join(block_views(blocks@).map_values(|b: BlockView| crate::text::trim_end(b.text)), "\n\n"@),
{
    let ghost tv = block_views(blocks@).map_values(|b: BlockView| crate::text::trim_end(b.text));
    let mut parts: Vec<Vec<char>> = Vec::new();
    let mut i: usize = 0;
    while i < blocks.len()
        invariant
            i <= blocks@.len(),
            tv == block_views(blocks@).map_values(|b: BlockView| crate::text::trim_end(b.text)),
            vviews(parts@) == tv.take(i as int),
        decreases blocks@.len() - i,
    {
        let c = chars_of(blocks[i].text.as_str());
        let k = crate::text::trim_end_index(c.as_slice());
        let piece = slice_vec(c.as_slice(), 0, k);
        let ghost before = parts@;
        parts.push(piece);
        proof {
            assert(vviews(parts@) =~= vviews(before).push(piece@));
            assert(tv.take(i + 1) =~= tv.take(i as int).push(tv[i as int]));
        }
        i = i + 1;
    }
    proof {
        assert(tv.take(blocks@.len() as int) =~= tv);
    }
    let sep = chars_of("\n\n");
    join_chars(&parts, sep.as_slice())
}

fn source_links(links: Vec<crate::docx::ExtractedLink>) -> (out: Vec<ResourceLink>)
    ensures
        link_infos(out@) == link_views(links@).map_values(|l: LinkView| source_link(l)),
{
    let ghost lv = link_views(links@).map_values(|l: LinkView| source_link(l));
    let mut out: Vec<ResourceLink> = Vec::new();
    let mut i: usize = 0;
    while i < links.len()
        invariant
            i <= links@.len(),
            lv == link_views(links@).map_values(|l: LinkView| source_link(l)),
            link_infos(out@) == lv.take(i as int),
        decreases links@.len() - i,
    {
        let l = &links[i];
        let target = l.target.clone();
        let label = match &l.text {
            Some(t) => t.clone(),
            None => target.clone(),
        };
        let tc = chars_of(target.as_str());
        let external = is_external_exec(tc.as_slice());
        let link = ResourceLink { label, target_uri: target, exists: None, external };
        let ghost before = out@;
        out.push(link);
        proof {
            assert(link_infos(out@) =~= link_infos(before).push(link_info(link)));
            assert(lv.take(i + 1) =~= lv.take(i as int).push(lv[i as int]));
        }
        i = i + 1;
    }
    proof {
        assert(lv.take(links@.len() as int) =~= lv);
    }
    out
}

/// Read a saved source version from its object's bytes: bytes whose SHA-256
/// is not the version's are an integrity error naming the object; otherwise
/// the source as read (see `source_loaded`), with whatever its extractor
/// gave where that is not fully stated.
pub fn source_resource(uri: &str, object_path: &str, media: MediaType, sha256: &str, bytes: Vec<u8>) -> (r: Result<
    LoadedResource,
    KbError,
>)
    requires
        bytes@.len() < usize::MAX,
    ensures
        match r {
            Ok(l) => hex_chars(sha256_digest(bytes@)) == sha256@ && exists|ex: DocumentView|
                #[trigger] extraction_agrees(media, bytes@, ex) && loaded_view(l) == source_loaded(
                    uri@,
                    media,
                    sha256@,
                    bytes@,
                    ex,
                ),
            Err(e) => hex_chars(sha256_digest(bytes@)) != sha256@ && e.code == ErrorCode::SourceIntegrityFailed
                && e.message@ == "Source object hash mismatch: "@ + object_path@,
        },
{
    let h = hash(bytes.as_slice());
    let hc = chars_of(h.as_str());
    let sc = chars_of(sha256);
    if !equal_chars(hc.as_slice(), sc.as_slice()) {
        return Err(crate::source_verify::integrity(object_path));
    }
    let copy = bytes.clone();
    proof {
        assert(copy@ =~= bytes@);
    }
    let extracted = extract_bytes(media, copy);
    let ghost ex = document_view(extracted);
    let ready = extracted.status == ExtractionStatus::TextReady;
    let content = if !ready {
        None
    } else if crate::extract::BuiltinTextExtractor.supports(media) {
        crate::text::utf8_text(bytes.as_slice()).ok()
    } else {
        Some(string_of(block_texts(&extracted.blocks).as_slice()))
    };
    let links = source_links(extracted.links);
    let l = LoadedResource {
        uri: uri.to_owned(),
        kind: ResourceKind::Source,
        content_type: media_content_type(media).to_owned(),
        content,
        sha256: sha256.to_owned(),
        links,
        warnings: extracted.warnings,
    };
    proof {
        assert(loaded_view(l) == source_loaded(uri@, media, sha256@, bytes@, ex));
    }
    Ok(l)
}

/// A page of a resource.
#[derive(Debug)]
pub struct ResourceReadResponse {
    pub resource_uri: String,
    pub kind: ResourceKind,
    pub content_type: String,
    pub content: Option<String>,
    pub sha256: String,
    pub text_available: bool,
    pub complete: bool,
    pub next_cursor: Option<String>,
    pub links: Vec<ResourceLink>,
    pub warnings: Vec<String>,
}

/// A page as values.
pub struct PageView {
    pub resource_uri: Seq<char>,
    pub kind: ResourceKind,
    pub content_type: Seq<char>,
    pub content: Option<Seq<char>>,
    pub sha256: Seq<char>,
    pub text_available: bool,
    pub complete: bool,
    pub next_cursor: Option<Seq<char>>,
    pub links: Seq<LinkInfo>,
    pub warnings: Seq<Seq<char>>,
}

pub open spec fn page_view(r: ResourceReadResponse) -> PageView {
    PageView {
        resource_uri: r.resource_uri@,
        kind: r.kind,
        content_type: r.content_type@,
        content: crate::extract::opt_view(r.content),
        sha256: r.sha256@,
        text_available: r.text_available,
        complete: r.complete,
        next_cursor: crate::extract::opt_view(r.next_cursor),
        links: link_infos(r.links@),
        warnings: crate::text::views(r.warnings@),
    }
}

/// The hex SHA-256 of a resource address's UTF-8 bytes, which ties cursors
/// to the resource.
pub open spec fn uri_digest(uri: Seq<char>) -> Seq<char> {
    hex_chars(sha256_digest(encode_utf8(uri)))
}

/// The offset a cursor holds: `v1:<address digest>:<content digest>:<offset>`
/// with this resource's digests and an offset that is a `usize`.
pub open spec fn cursor_offset(cursor: Seq<char>, uri_hash: Seq<char>, sha: Seq<char>) -> Option<nat> {
    let parts = split_on(cursor, ':');
    if parts.len() == 4 && parts[0] == "v1"@ && parts[1] == uri_hash && parts[2] == sha {
        match crate::sync::parsed_u64(parts[3]) {
            Some(v) => if v <= usize::MAX {
                Some(v as nat)
            } else {
                None
            },
            None => None,
        }
    } else {
        None
    }
}

/// The cursor of the page that starts at `end`.
pub open spec fn next_cursor_at(uri_hash: Seq<char>, sha: Seq<char>, end: nat) -> Seq<char> {
    "v1:"@ + uri_hash + ":"@ + sha + ":"@ + crate::text::decimal(end)
}

/// Where a page ends: `max` characters on, or at the end.
pub open spec fn page_end(offset: nat, max: nat, len: nat) -> nat {
    if offset + max < len {
        offset + max
    } else {
        len
    }
}

/// One page of a loaded resource: a resource without text is one complete
/// page; otherwise the page holds up to `max_chars` characters from the
/// cursor's offset (the start without a cursor) and, unless it reaches the
/// end, the cursor of the next page. A cursor of another resource or
/// version, or past the end, is stale.
pub open spec fn paged(l: LoadedView, cursor: Option<Seq<char>>, max_chars: nat) -> Result<PageView, ErrorCode> {
    match l.content {
        None => Ok(
            PageView {
                resource_uri: l.uri,
                kind: l.kind,
                content_type: l.content_type,
                content: None,
                sha256: l.sha256,
                text_available: false,
                complete: true,
                next_cursor: None,
                links: l.links,
                warnings: l.warnings,
            },
        ),
        Some(text) => {
            let h = uri_digest(l.uri);
            let offset = match cursor {
                None => Some(0nat),
                Some(c) => cursor_offset(c, h, l.sha256),
            };
            match offset {
                None => Err(ErrorCode::ResourceCursorStale),
                Some(o) => if o > text.len() {
                    Err(ErrorCode::ResourceCursorStale)
                } else {
                    let end = page_end(o, max_chars, text.len());
                    Ok(
                        PageView {
                            resource_uri: l.uri,
                            kind: l.kind,
                            content_type: l.content_type,
                            content: Some(text.subrange(o as int, end as int)),
                            sha256: l.sha256,
                            text_available: true,
                            complete: end == text.len(),
                            next_cursor: if end == text.len() {
                                None
                            } else {
                                Some(next_cursor_at(h, l.sha256, end))
                            },
                            links: l.links,
                            warnings: l.warnings,
                        },
                    )
                },
            }
        },
    }
}

/// The text of reading a resource page by page from `cursor`, each next page
/// at the previous page's cursor, while `budget` pages may be read: none if
/// a read fails, a page has no text, or the budget ends before a complete page.
pub open spec fn read_pages(l: LoadedView, cursor: Option<Seq<char>>, max_chars: nat, budget: nat) -> Option<Seq<char>>
    decreases budget,
{
    if budget == 0 {
        None
    } else {
        match paged(l, cursor, max_chars) {
            Err(_) => None,
            Ok(p) => match p.content {
                None => None,
                Some(t) => if p.complete {
                    Some(t)
                } else {
                    match read_pages(l, p.next_cursor, max_chars, (budget - 1) as nat) {
                        Some(rest) => Some(t + rest),
                        None => None,
                    }
                },
            },
        }
    }
}

proof fn lemma_hex_no_colon(bytes: Seq<u8>)
    ensures
        !hex_chars(bytes).contains(':'),
    decreases bytes.len(),
{
    if bytes.len() > 0 {
        lemma_hex_no_colon(bytes.drop_last());
        let hi = bytes.last() / 16;
        let lo = bytes.last() % 16;
        assert(crate::source_io::hex_digit(hi) != ':') by {
            assert(hi < 16);
            if hi < 10 {
                assert((((hi + 48) as u8) as char) as int == hi + 48);
            } else {
                assert((((hi + 87) as u8) as char) as int == hi + 87);
            }
        }
        assert(crate::source_io::hex_digit(lo) != ':') by {
            assert(lo < 16);
            if lo < 10 {
                assert((((lo + 48) as u8) as char) as int == lo + 48);
            } else {
                assert((((lo + 87) as u8) as char) as int == lo + 87);
            }
        }
        let s = hex_chars(bytes);
        assert(s == hex_chars(bytes.drop_last()) + seq![crate::source_io::hex_digit(hi), crate::source_io::hex_digit(lo)]);
        if s.contains(':') {
            let i = choose|i: int| 0 <= i < s.len() && s[i] == ':';
            if i < hex_chars(bytes.drop_last()).len() {
                assert(hex_chars(bytes.drop_last())[i] == ':');
            }
        }
    }
}

proof fn lemma_decimal_digits(n: nat)
    ensures
        decimal(n).len() > 0,
        crate::sync::all_digits(decimal(n)),
        crate::sync::digits_value(decimal(n)) == n,
    decreases n,
{
    if n >= 10 {
        lemma_decimal_digits(n / 10);
        let d = decimal(n);
        assert(d.drop_last() == decimal(n / 10));
        assert forall|i: int| 0 <= i < d.len() implies crate::sync::is_digit(#[trigger] d[i]) by {
            if i < d.len() - 1 {
                assert(d[i] == decimal(n / 10)[i]);
            }
        }
        assert(crate::sync::digit_value(crate::text::digit_char(n % 10)) == n % 10);
        assert(d.last() == crate::text::digit_char(n % 10));
        assert((n / 10) * 10 + n % 10 == n) by (nonlinear_arith);
        assert(crate::sync::digits_value(d) == crate::sync::digits_value(d.drop_last()) * 10
            + crate::sync::digit_value(d.last()));
    } else {
        let d = decimal(n);
        assert(crate::sync::digit_value(crate::text::digit_char(n)) == n);
        assert(d.drop_last() =~= Seq::<char>::empty());
        assert(crate::sync::digits_value(d.drop_last()) == 0);
        assert(crate::sync::digits_value(d) == crate::sync::digits_value(d.drop_last()) * 10
            + crate::sync::digit_value(d.last()));
    }
}

proof fn lemma_split_plain(s: Seq<char>, c: char)
    requires
        !s.contains(c),
    ensures
        split_state(s, c) == (Seq::<Seq<char>>::empty(), s),
    decreases s.len(),
{
    if s.len() > 0 {
        assert(!s.drop_last().contains(c)) by {
            if s.drop_last().contains(c) {
                let i = choose|i: int| 0 <= i < s.drop_last().len() && s.drop_last()[i] == c;
                assert(s[i] == c);
            }
        }
        lemma_split_plain(s.drop_last(), c);
        assert(s.last() != c);
        assert(s.drop_last().push(s.last()) =~= s);
    }
}

proof fn lemma_split_after(a: Seq<char>, b: Seq<char>, c: char)
    requires
        !b.contains(c),
    ensures
        split_state(a + seq![c] + b, c) == (split_state(a, c).0.push(split_state(a, c).1), b),
    decreases b.len(),
{
    let x = a + seq![c] + b;
    if b.len() == 0 {
        assert(x.drop_last() =~= a);
        assert(x.last() == c);
    } else {
        assert(!b.drop_last().contains(c)) by {
            if b.drop_last().contains(c) {
                let i = choose|i: int| 0 <= i < b.drop_last().len() && b.drop_last()[i] == c;
                assert(b[i] == c);
            }
        }
        lemma_split_after(a, b.drop_last(), c);
        assert(x.drop_last() =~= a + seq![c] + b.drop_last());
        assert(x.last() == b.last());
        assert(b.last() != c);
        assert(b.drop_last().push(b.last()) =~= b);
    }
}

proof fn lemma_cursor_round_trip(h: Seq<char>, sha: Seq<char>, end: nat)
    requires
        !h.contains(':'),
        !sha.contains(':'),
        end <= usize::MAX,
    ensures
        cursor_offset(next_cursor_at(h, sha, end), h, sha) == Some(end),
{
    reveal_strlit("v1:");
    reveal_strlit("v1");
    reveal_strlit(":");
    let d = decimal(end);
    lemma_decimal_digits(end);
    assert(!d.contains(':')) by {
        if d.contains(':') {
            let i = choose|i: int| 0 <= i < d.len() && d[i] == ':';
            assert(crate::sync::is_digit(d[i]));
        }
    }
    let v1 = "v1"@;
    assert(!v1.contains(':')) by {
        if v1.contains(':') {
            let i = choose|i: int| 0 <= i < v1.len() && v1[i] == ':';
        }
    }
    let cursor = next_cursor_at(h, sha, end);
    assert(cursor =~= v1 + seq![':'] + h + seq![':'] + sha + seq![':'] + d);
    lemma_split_plain(v1, ':');
    lemma_split_after(v1, h, ':');
    lemma_split_after(v1 + seq![':'] + h, sha, ':');
    lemma_split_after(v1 + seq![':'] + h + seq![':'] + sha, d, ':');
    let parts = split_on(cursor, ':');
    assert(parts =~= seq![v1, h, sha, d]);
    assert(d[0] != '+');
    assert(crate::sync::parsed_u64(d) == Some(end as u64));
}

proof fn lemma_pages_from(l: LoadedView, max_chars: nat, o: nat, budget: nat)
    requires
        l.content is Some,
        max_chars >= 1,
        l.content->Some_0.len() <= usize::MAX,
        !l.sha256.contains(':'),
        o <= l.content->Some_0.len(),
        budget >= l.content->Some_0.len() - o + 1,
    ensures
        read_pages(l, if o == 0 { None } else { Some(next_cursor_at(uri_digest(l.uri), l.sha256, o)) }, max_chars, budget)
            == Some(l.content->Some_0.subrange(o as int, l.content->Some_0.len() as int)),
    decreases l.content->Some_0.len() - o,
{
    let text = l.content->Some_0;
    let h = uri_digest(l.uri);
    lemma_hex_no_colon(sha256_digest(encode_utf8(l.uri)));
    let cursor = if o == 0 { None } else { Some(next_cursor_at(h, l.sha256, o)) };
    if o > 0 {
        lemma_cursor_round_trip(h, l.sha256, o);
    }
    let end = page_end(o, max_chars, text.len());
    if end < text.len() {
        lemma_pages_from(l, max_chars, end, (budget - 1) as nat);
        lemma_cursor_round_trip(h, l.sha256, end);
        assert(text.subrange(o as int, end as int) + text.subrange(end as int, text.len() as int)
            =~= text.subrange(o as int, text.len() as int));
    }
}

/// Reading a resource's text page by page, starting without a cursor and
/// going on at each page's cursor, gives the whole text, when each page may
/// hold at least one character; no more pages are read than the text has
/// characters, plus one. (A content digest that holds `:` would make every
/// cursor stale.)
pub proof fn pages_join_to_content(l: LoadedView, max_chars: nat)
    requires
        l.content is Some,
        max_chars >= 1,
        l.content->Some_0.len() <= usize::MAX,
        !l.sha256.contains(':'),
    ensures
        read_pages(l, None, max_chars, (l.content->Some_0.len() + 1) as nat) == Some(l.content->Some_0),
{
    lemma_pages_from(l, max_chars, 0, (l.content->Some_0.len() + 1) as nat);
    assert(l.content->Some_0.subrange(0, l.content->Some_0.len() as int) =~= l.content->Some_0);
}

/// Each page holds at most `max_chars` characters, and a page is complete
/// exactly when it has no next cursor.
pub proof fn pages_are_bounded(l: LoadedView, cursor: Option<Seq<char>>, max_chars: nat)
    ensures
        paged(l, cursor, max_chars) matches Ok(p) ==> (
            (p.content matches Some(t) ==> t.len() <= max_chars)
            && (p.complete <==> p.next_cursor is None)),
{
}

/// The error of a cursor that does not fit the resource.
pub fn stale_cursor(uri: &str) -> (e: KbError)
    ensures
        e.code == ErrorCode::ResourceCursorStale,
        e.message@ == "Resource changed or the cursor does not belong to this resource version."@,
        !e.retryable,
        e.resource_uri matches Some(u) && u@ == uri@,
{
    resource_error(
        ErrorCode::ResourceCursorStale,
        uri,
        "Resource changed or the cursor does not belong to this resource version.",
        "Restart reading this resource without a cursor.",
    )
}

/// The offset of a cursor (see `cursor_offset`); a cursor that does not fit
/// is stale.
pub fn parse_cursor(cursor: &str, uri_hash: &str, sha: &str, uri: &str) -> (r: Result<usize, KbError>)
    ensures
        match r {
            Ok(o) => cursor_offset(cursor@, uri_hash@, sha@) == Some(o as nat),
            Err(e) => cursor_offset(cursor@, uri_hash@, sha@) is None && e.code == ErrorCode::ResourceCursorStale
                && (e.resource_uri matches Some(u) && u@ == uri@),
        },
{
    let c = chars_of(cursor);
    let parts = split_char(c.as_slice(), ':');
    let v1 = chars_of("v1");
    let uh = chars_of(uri_hash);
    let sh = chars_of(sha);
    if parts.len() != 4 || !equal_chars(parts[0].as_slice(), v1.as_slice()) || !equal_chars(
        parts[1].as_slice(),
        uh.as_slice(),
    ) || !equal_chars(parts[2].as_slice(), sh.as_slice()) {
        proof {
            if vviews(parts@).len() == 4 {
                assert(vviews(parts@)[0] == parts@[0]@);
                assert(vviews(parts@)[1] == parts@[1]@);
                assert(vviews(parts@)[2] == parts@[2]@);
            }
        }
        return Err(stale_cursor(uri));
    }
    proof {
        assert(vviews(parts@)[0] == parts@[0]@);
        assert(vviews(parts@)[1] == parts@[1]@);
        assert(vviews(parts@)[2] == parts@[2]@);
        assert(vviews(parts@)[3] == parts@[3]@);
    }
    match crate::sync::parse_u64(parts[3].as_slice()) {
        Some(v) => {
            if v <= usize::MAX as u64 {
                Ok(v as usize)
            } else {
                Err(stale_cursor(uri))
            }
        },
        None => Err(stale_cursor(uri)),
    }
}

pub open spec fn paged_result(r: Result<ResourceReadResponse, KbError>) -> Result<PageView, ErrorCode> {
    match r {
        Ok(p) => Ok(page_view(p)),
        Err(e) => Err(e.code),
    }
}

/// One page of a loaded resource (see `paged`).
pub fn paginate(loaded: LoadedResource, cursor: Option<&str>, max_chars: usize) -> (r: Result<
    ResourceReadResponse,
    KbError,
>)
    ensures
        paged_result(r) == paged(
            loaded_view(loaded),
            match cursor {
                Some(c) => Some(c@),
                None => None,
            },
            max_chars as nat,
        ),
        r matches Err(e) ==> e.resource_uri matches Some(u) && u@ == loaded.uri@,
{
    let ghost l = loaded_view(loaded);
    let LoadedResource { uri, kind, content_type, content, sha256, links, warnings } = loaded;
    let content = match content {
        None => {
            return Ok(
                ResourceReadResponse {
                    resource_uri: uri,
                    kind,
                    content_type,
                    content: None,
                    sha256,
                    text_available: false,
                    complete: true,
                    next_cursor: None,
                    links,
                    warnings,
                },
            );
        },
        Some(c) => c,
    };
    let uri_hash = hash(uri.as_str().as_bytes());
    let offset = match cursor {
        None => 0,
        Some(c) => match parse_cursor(c, uri_hash.as_str(), sha256.as_str(), uri.as_str()) {
            Ok(o) => o,
            Err(e) => {
                return Err(e);
            },
        },
    };
    let chars = chars_of(content.as_str());
    if offset > chars.len() {
        return Err(stale_cursor(uri.as_str()));
    }
    let n = chars.len();
    let end = if max_chars < n - offset { offset + max_chars } else { n };
    let page = string_of(slice_vec(chars.as_slice(), offset, end).as_slice());
    let complete = end == n;
    let next_cursor = if complete {
        None
    } else {
        let mut t = chars_of("v1:");
        crate::text::append_chars(&mut t, chars_of(uri_hash.as_str()).as_slice());
        crate::text::append_chars(&mut t, chars_of(":").as_slice());
        crate::text::append_chars(&mut t, chars_of(sha256.as_str()).as_slice());
        crate::text::append_chars(&mut t, chars_of(":").as_slice());
        crate::text::append_chars(&mut t, crate::text::decimal_chars(end as u64).as_slice());
        Some(string_of(t.as_slice()))
    };
    Ok(
        ResourceReadResponse {
            resource_uri: uri,
            kind,
            content_type,
            content: Some(page),
            sha256,
            text_available: true,
            complete,
            next_cursor,
            links,
            warnings,
        },
    )
}

} // verus!
