//! EPUB packages: the container's root file, the package's title, manifest
//! and spine, and the text of the spine's documents.
use vstd::prelude::*;
use crate::archive::{archive_opens, named_entry, resolve, resolved, BoundedArchive};
use crate::docx::{
    attribute, is_named, end_named, link_view, link_views, LinkView, lookup, lookup_pair, named, pair_views, push_pair,
    spec_attribute, ExtractedLink,
};
use crate::extract::{block_views, located, opt_view, place, relocate, structured, BlockView, ExtractedBlock, ExtractedDocument, document_view, structured_document};
use crate::docx::content_result;
use crate::html::{content_of, content_view, html_parsed, html_rendered, RENDER_WIDTH};
use vstd::utf8::valid_utf8;
use crate::text::{append_chars, ascii_bytes, chars_of, prefixed, string_of, trim, trimmed, views};
use crate::xml::{local_name, read_events, xml_events, XmlElement, XmlEvent};

verus! {

/// The root file named by an element, or why it names none.
pub open spec fn rootfile_of(e: XmlElement) -> Result<Seq<char>, Seq<char>> {
    match spec_attribute(e, ascii_bytes("full-path"@), "EPUB"@) {
        Err(m) => Err(m),
        Ok(None) => Err("EPUB rootfile has no full-path."@),
        Ok(Some(v)) => Ok(v),
    }
}

/// The package path of `META-INF/container.xml`: the `full-path` of its first
/// `rootfile` element.
pub open spec fn rootfile_from(events: Seq<XmlEvent>, i: int) -> Result<Seq<char>, Seq<char>>
    decreases events.len() - i,
{
    if i < 0 || i >= events.len() {
        Err("EPUB container has no rootfile."@)
    } else {
        match events[i] {
            XmlEvent::Start(e) => if named(e, "rootfile"@) { rootfile_of(e) } else { rootfile_from(events, i + 1) },
            XmlEvent::Empty(e) => if named(e, "rootfile"@) { rootfile_of(e) } else { rootfile_from(events, i + 1) },
            XmlEvent::Eof => Err("EPUB container has no rootfile."@),
            XmlEvent::Error(m) => Err("Cannot parse EPUB container XML: "@ + m@),
            XmlEvent::Stalled => Err("Cannot parse EPUB container XML: "@ + "the XML reader stopped advancing within its input"@),
            _ => rootfile_from(events, i + 1),
        }
    }
}

pub open spec fn string_result(r: Result<String, String>) -> Result<Seq<char>, Seq<char>> {
    match r {
        Ok(v) => Ok(v@),
        Err(m) => Err(m@),
    }
}

fn rootfile_exec(e: &XmlElement) -> (r: Result<String, String>)
    ensures
        string_result(r) == rootfile_of(*e),
{
    match attribute(e, "full-path", "EPUB")? {
        Some(v) => Ok(v),
        None => Err("EPUB rootfile has no full-path.".to_owned()),
    }
}

/// The package path named by the container (see `rootfile_from`).
pub fn rootfile(events: &Vec<XmlEvent>) -> (r: Result<String, String>)
    ensures
        string_result(r) == rootfile_from(events@, 0),
{
    let mut i: usize = 0;
    while i < events.len()
        invariant
            i <= events@.len(),
            rootfile_from(events@, 0) == rootfile_from(events@, i as int),
        decreases events@.len() - i,
    {
        match &events[i] {
            XmlEvent::Start(e) => {
                if is_named(e, "rootfile") {
                    return rootfile_exec(e);
                }
            },
            XmlEvent::Empty(e) => {
                if is_named(e, "rootfile") {
                    return rootfile_exec(e);
                }
            },
            XmlEvent::Eof => {
                return Err("EPUB container has no rootfile.".to_owned());
            },
            XmlEvent::Error(m) => {
                return Err(prefixed("Cannot parse EPUB container XML: ", m.as_str()));
            },
            XmlEvent::Stalled => {
                return Err(prefixed("Cannot parse EPUB container XML: ", "the XML reader stopped advancing within its input"));
            },
            _ => {},
        }
        i = i + 1;
    }
    Err("EPUB container has no rootfile.".to_owned())
}

/// The package so far: title, whether inside the title, manifest and spine.
pub struct PackageView {
    pub title: Option<Seq<char>>,
    pub in_title: bool,
    pub manifest: Seq<(Seq<char>, Seq<char>)>,
    pub spine: Seq<Seq<char>>,
}

/// A manifest `item`: its id and href are required and ids are unique.
pub open spec fn manifest_step(e: XmlElement, st: PackageView) -> Result<PackageView, Seq<char>> {
    match spec_attribute(e, ascii_bytes("id"@), "EPUB"@) {
        Err(m) => Err(m),
        Ok(None) => Err("EPUB manifest item has no id."@),
        Ok(Some(id)) => match spec_attribute(e, ascii_bytes("href"@), "EPUB"@) {
            Err(m) => Err(m),
            Ok(None) => Err("EPUB manifest item "@ + id + " has no href."@),
            Ok(Some(href)) => if lookup(st.manifest, id) is Some {
                Err("EPUB manifest contains duplicate id: "@ + id)
            } else {
                Ok(PackageView { manifest: st.manifest.push((id, href)), ..st })
            },
        },
    }
}

/// A spine `itemref`: its idref is required.
pub open spec fn spine_step(e: XmlElement, st: PackageView) -> Result<PackageView, Seq<char>> {
    match spec_attribute(e, ascii_bytes("idref"@), "EPUB"@) {
        Err(m) => Err(m),
        Ok(None) => Err("EPUB spine item has no idref."@),
        Ok(Some(id)) => Ok(PackageView { spine: st.spine.push(id), ..st }),
    }
}

pub open spec fn element_step(e: XmlElement, st: PackageView) -> Result<PackageView, Seq<char>> {
    if named(e, "item"@) {
        manifest_step(e, st)
    } else if named(e, "itemref"@) {
        spine_step(e, st)
    } else {
        Ok(st)
    }
}

pub open spec fn package_end(st: PackageView) -> Result<PackageView, Seq<char>> {
    if st.spine.len() == 0 {
        Err("EPUB package has no spine items."@)
    } else {
        Ok(st)
    }
}

/// The package document read with trimmed text: the first nonblank title,
/// the manifest items and the spine in order; a package without spine
/// items is an error.
pub open spec fn package_from(events: Seq<XmlEvent>, i: int, st: PackageView) -> Result<PackageView, Seq<char>>
    decreases events.len() - i,
{
    if i < 0 || i >= events.len() {
        package_end(st)
    } else {
        let next = match events[i] {
            XmlEvent::Start(e) => if named(e, "title"@) { Ok(PackageView { in_title: true, ..st }) } else { element_step(e, st) },
            XmlEvent::Empty(e) => element_step(e, st),
            XmlEvent::Text(t) => if st.in_title {
                match t {
                    Err(m) => Err("Cannot decode EPUB title: "@ + m@),
                    Ok(v) => Ok(if trim(v@).len() > 0 && st.title is None {
                        PackageView { title: Some(trim(v@)), ..st }
                    } else {
                        st
                    }),
                }
            } else {
                Ok(st)
            },
            XmlEvent::End(n) => if local_name(n@) == ascii_bytes("title"@) { Ok(PackageView { in_title: false, ..st }) } else { Ok(st) },
            _ => Ok(st),
        };
        match events[i] {
            XmlEvent::Eof => package_end(st),
            XmlEvent::Error(m) => Err("Cannot parse EPUB package XML: "@ + m@),
            XmlEvent::Stalled => Err("Cannot parse EPUB package XML: "@ + "the XML reader stopped advancing within its input"@),
            _ => match next {
                Err(m) => Err(m),
                Ok(s) => package_from(events, i + 1, s),
            },
        }
    }
}

pub open spec fn package_init() -> PackageView {
    PackageView { title: None, in_title: false, manifest: Seq::empty(), spine: Seq::empty() }
}

/// A package: title, manifest (id and href) and spine (ids).
pub struct Package {
    pub title: Option<String>,
    pub in_title: bool,
    pub manifest: Vec<(String, String)>,
    pub spine: Vec<String>,
}

pub open spec fn package_view(p: Package) -> PackageView {
    PackageView {
        title: crate::extract::opt_view(p.title),
        in_title: p.in_title,
        manifest: pair_views(p.manifest@),
        spine: views(p.spine@),
    }
}

pub open spec fn package_result(r: Result<Package, String>) -> Result<PackageView, Seq<char>> {
    match r {
        Ok(p) => Ok(package_view(p)),
        Err(m) => Err(m@),
    }
}

fn element_exec(e: &XmlElement, st: &mut Package) -> (r: Result<(), String>)
    ensures
        match element_step(*e, package_view(*old(st))) {
            Ok(s) => r is Ok && package_view(*final(st)) == s,
            Err(m) => r matches Err(x) && x@ == m,
        },
{
    if is_named(e, "item") {
        let id = match attribute(e, "id", "EPUB")? {
            Some(v) => v,
            None => {
                return Err("EPUB manifest item has no id.".to_owned());
            },
        };
        let href = match attribute(e, "href", "EPUB")? {
            Some(v) => v,
            None => {
                let mut m = chars_of("EPUB manifest item ");
                append_chars(&mut m, chars_of(id.as_str()).as_slice());
                append_chars(&mut m, chars_of(" has no href.").as_slice());
                return Err(string_of(m.as_slice()));
            },
        };
        if lookup_pair(&st.manifest, chars_of(id.as_str()).as_slice()).is_some() {
            return Err(prefixed("EPUB manifest contains duplicate id: ", id.as_str()));
        }
        push_pair(&mut st.manifest, id, href);
    } else if is_named(e, "itemref") {
        let id = match attribute(e, "idref", "EPUB")? {
            Some(v) => v,
            None => {
                return Err("EPUB spine item has no idref.".to_owned());
            },
        };
        let ghost before = st.spine@;
        st.spine.push(id);
        proof {
            assert(views(st.spine@) =~= views(before).push(id@));
        }
    }
    Ok(())
}

fn package_end_exec(st: Package) -> (r: Result<Package, String>)
    ensures
        package_result(r) == package_end(package_view(st)),
{
    if st.spine.len() == 0 {
        Err("EPUB package has no spine items.".to_owned())
    } else {
        Ok(st)
    }
}

/// The package of an EPUB (see `package_from`), from events read with trimmed text.
pub fn parse_package(events: &Vec<XmlEvent>) -> (r: Result<Package, String>)
    ensures
        package_result(r) == package_from(events@, 0, package_init()),
{
    let mut st = Package { title: None, in_title: false, manifest: Vec::new(), spine: Vec::new() };
    proof {
        assert(pair_views(st.manifest@) =~= Seq::<(Seq<char>, Seq<char>)>::empty());
        assert(views(st.spine@) =~= Seq::<Seq<char>>::empty());
        assert(package_view(st) =~= package_init());
    }
    let mut i: usize = 0;
    while i < events.len()
        invariant
            i <= events@.len(),
            package_from(events@, 0, package_init()) == package_from(events@, i as int, package_view(st)),
        decreases events@.len() - i,
    {
        match &events[i] {
            XmlEvent::Start(e) => {
                if is_named(e, "title") {
                    st.in_title = true;
                } else {
                    element_exec(e, &mut st)?;
                }
            },
            XmlEvent::Empty(e) => {
                element_exec(e, &mut st)?;
            },
            XmlEvent::Text(t) => {
                if st.in_title {
                    match t {
                        Err(m) => {
                            return Err(prefixed("Cannot decode EPUB title: ", m.as_str()));
                        },
                        Ok(v) => {
                            let value = trimmed(chars_of(v.as_str()).as_slice());
                            if value.len() > 0 && st.title.is_none() {
                                st.title = Some(string_of(value.as_slice()));
                            }
                        },
                    }
                }
            },
            XmlEvent::End(n) => {
                if end_named(n, "title") {
                    st.in_title = false;
                }
            },
            XmlEvent::Eof => {
                return package_end_exec(st);
            },
            XmlEvent::Error(m) => {
                return Err(prefixed("Cannot parse EPUB package XML: ", m.as_str()));
            },
            XmlEvent::Stalled => {
                return Err(prefixed("Cannot parse EPUB package XML: ", "the XML reader stopped advancing within its input"));
            },
            XmlEvent::Other => {},
        }
        i = i + 1;
    }
    package_end_exec(st)
}

/// Links of a spine document resolved against its resource, in order, up
/// to the first whose target cannot be resolved, and that failure's message.
pub open spec fn resolved_links(links: Seq<LinkView>, resource: Seq<char>) -> (Seq<LinkView>, Option<Seq<char>>)
    decreases links.len(),
{
    if links.len() == 0 {
        (Seq::empty(), None)
    } else {
        let (done, failure) = resolved_links(links.drop_last(), resource);
        if failure is Some {
            (done, failure)
        } else {
            match crate::archive::resolved(resource, links.last().target) {
                Err(e) => (done, Some(e)),
                Ok(t) => (done.push(LinkView { text: links.last().text, target: t, location: None }), None),
            }
        }
    }
}

fn append_links(out: &mut Vec<ExtractedLink>, links: Vec<ExtractedLink>, resource: &str) -> (r: Result<(), String>)
    ensures
        link_views(final(out)@) == link_views(old(out)@) + resolved_links(link_views(links@), resource@).0,
        r is Ok <==> resolved_links(link_views(links@), resource@).1 is None,
        r matches Err(m) ==> resolved_links(link_views(links@), resource@).1 == Some(m@),
{
    let ghost lv = link_views(links@);
    let ghost base = link_views(out@);
    let mut i: usize = 0;
    proof {
        assert(lv.take(0) =~= Seq::<LinkView>::empty());
        assert(base + Seq::<LinkView>::empty() =~= base);
    }
    while i < links.len()
        invariant
            i <= links@.len(),
            lv == link_views(links@),
            base == link_views(old(out)@),
            resolved_links(lv.take(i as int), resource@).1 is None,
            link_views(out@) == base + resolved_links(lv.take(i as int), resource@).0,
        decreases links@.len() - i,
    {
        let l = &links[i];
        let ghost prefix = lv.take(i + 1);
        proof {
            assert(prefix.drop_last() =~= lv.take(i as int));
            assert(prefix.last() == link_view(links@[i as int]));
        }
        let target = match resolve(resource, l.target.as_str()) {
            Ok(t) => t,
            Err(m) => {
                proof {
                    assert(resolved_links(prefix, resource@).0 == resolved_links(lv.take(i as int), resource@).0);
                    lemma_resolved_links_stop(lv, resource@, i + 1);
                }
                return Err(m);
            },
        };
        let text = match &l.text {
            Some(t) => Some(t.clone()),
            None => None,
        };
        let ghost before = link_views(out@);
        let link = ExtractedLink { text, target, location: None };
        out.push(link);
        proof {
            assert(link_views(out@) =~= before.push(link_view(link)));
            assert(link_view(link) == LinkView { text: prefix.last().text, target: target@, location: None });
            assert(link_views(out@) =~= base + resolved_links(prefix, resource@).0);
        }
        i = i + 1;
    }
    proof {
        assert(lv.take(links@.len() as int) =~= lv);
    }
    Ok(())
}

proof fn lemma_resolved_links_stop(links: Seq<LinkView>, resource: Seq<char>, k: int)
    requires
        0 <= k <= links.len(),
        resolved_links(links.take(k), resource).1 is Some,
    ensures
        resolved_links(links, resource) == resolved_links(links.take(k), resource),
    decreases links.len() - k,
{
    if k < links.len() {
        assert(links.take(k + 1).drop_last() =~= links.take(k));
        lemma_resolved_links_stop(links, resource, k + 1);
    } else {
        assert(links.take(k) =~= links);
    }
}

/// What a page's parse gave: its title, links and blocks, or why it failed.
pub type PageContent = Result<(Option<Seq<char>>, Seq<LinkView>, Seq<BlockView>), Seq<char>>;

/// The bytes of the document that a spine item names: its manifest href,
/// resolved against the package path, as an archive entry.
pub open spec fn spine_page(
    entries: Seq<(Seq<char>, Seq<u8>)>,
    path: Seq<char>,
    manifest: Seq<(Seq<char>, Seq<char>)>,
    id: Seq<char>,
) -> Option<Seq<u8>> {
    match lookup(manifest, id) {
        None => None,
        Some(href) => match resolved(path, href) {
            Err(_) => None,
            Ok(resource) => named_entry(entries, resource),
        },
    }
}

/// The blocks and links of the spine from its `i`-th item on, added to
/// `blocks` and `links`, where `pages[k]` is what parsing the `k`-th item's
/// document gave: each item must name a manifest entry whose resolved href
/// is in the archive and parses; its blocks are located in that resource and
/// its links resolved against it.
pub open spec fn spine_from(
    entries: Seq<(Seq<char>, Seq<u8>)>,
    path: Seq<char>,
    manifest: Seq<(Seq<char>, Seq<char>)>,
    spine: Seq<Seq<char>>,
    pages: Seq<PageContent>,
    i: int,
    blocks: Seq<BlockView>,
    links: Seq<LinkView>,
) -> Result<(Seq<BlockView>, Seq<LinkView>), Seq<char>>
    decreases spine.len() - i,
{
    if i < 0 || i >= spine.len() {
        Ok((blocks, links))
    } else {
        match lookup(manifest, spine[i]) {
            None => Err("EPUB spine references unknown manifest item: "@ + spine[i]),
            Some(href) => match resolved(path, href) {
                Err(e) => Err(e),
                Ok(resource) => match named_entry(entries, resource) {
                    None => Err("EPUB"@ + " archive is missing "@ + resource + "."@),
                    Some(_) => match pages[i] {
                        Err(e) => Err(e),
                        Ok((_, page_links, page_blocks)) => {
                            let more = blocks + located(page_blocks, |k: u64| place(Some(resource), k));
                            match resolved_links(page_links, resource) {
                                (_, Some(e)) => Err(e),
                                (found, None) => spine_from(entries, path, manifest, spine, pages, i + 1, more, links + found),
                            }
                        },
                    },
                },
            },
        }
    }
}

/// The package path and package of an EPUB's entries.
pub open spec fn epub_package(entries: Seq<(Seq<char>, Seq<u8>)>) -> Result<(Seq<char>, PackageView), Seq<char>> {
    match named_entry(entries, "META-INF/container.xml"@) {
        None => Err("EPUB"@ + " archive is missing "@ + "META-INF/container.xml"@ + "."@),
        Some(c) => match rootfile_from(xml_events(c, false), 0) {
            Err(e) => Err(e),
            Ok(path) => match named_entry(entries, path) {
                None => Err("EPUB"@ + " archive is missing "@ + path + "."@),
                Some(x) => match package_from(xml_events(x, true), 0, package_init()) {
                    Err(e) => Err(e),
                    Ok(p) => Ok((path, p)),
                },
            },
        },
    }
}

/// `pages` holds, for each spine item whose document is in the archive, an
/// outcome of parsing that document.
pub open spec fn pages_fit(entries: Seq<(Seq<char>, Seq<u8>)>, pages: Seq<PageContent>) -> bool {
    match epub_package(entries) {
        Err(_) => true,
        Ok((path, p)) => pages.len() == p.spine.len() && forall|k: int| 0 <= k < pages.len() ==> (
            #[trigger] spine_page(entries, path, p.manifest, p.spine[k]) matches Some(page) ==> html_parsed(page, pages[k])),
    }
}

/// The content an EPUB's entries give with the pages' parses `pages`: the
/// container names the package; the spine's documents give the blocks and
/// links (see `spine_from`); a spine without text is an error.
pub open spec fn epub_from(entries: Seq<(Seq<char>, Seq<u8>)>, pages: Seq<PageContent>) -> PageContent {
    match epub_package(entries) {
        Err(e) => Err(e),
        Ok((path, p)) => match spine_from(entries, path, p.manifest, p.spine, pages, 0, Seq::empty(), Seq::empty()) {
            Err(e) => Err(e),
            Ok((blocks, links)) => if blocks.len() == 0 {
                Err("EPUB does not contain readable spine text."@)
            } else {
                Ok((p.title, links, blocks))
            },
        },
    }
}

/// What the archive's outcome gives: its error, or the content of its entries.
pub open spec fn epub_outcome(a: Result<Seq<(Seq<char>, Seq<u8>)>, Seq<char>>, pages: Seq<PageContent>) -> PageContent {
    match a {
        Err(e) => Err(e),
        Ok(entries) => epub_from(entries, pages),
    }
}

/// A parse of a page with no title and no links (one of those
/// `html_parsed` admits).
pub open spec fn plain_parse(bytes: Seq<u8>) -> PageContent {
    if !valid_utf8(bytes) {
        Err("Expected UTF-8 HTML input."@)
    } else {
        match html_rendered(bytes, RENDER_WIDTH) {
            Err(m) => Err("Cannot render HTML: "@ + m),
            Ok(t) => if t.len() >= usize::MAX {
                Err("Cannot render HTML: the rendering is too long."@)
            } else {
                content_of(None, Seq::empty(), Ok(t))
            },
        }
    }
}

/// The parse that stands in for an item that was not reached.
pub open spec fn unread_page(entries: Seq<(Seq<char>, Seq<u8>)>, path: Seq<char>, manifest: Seq<(Seq<char>, Seq<char>)>, id: Seq<char>) -> PageContent {
    match spine_page(entries, path, manifest, id) {
        Some(page) => plain_parse(page),
        None => Err(Seq::empty()),
    }
}

proof fn lemma_plain_parse(bytes: Seq<u8>)
    ensures
        html_parsed(bytes, plain_parse(bytes)),
{
    if valid_utf8(bytes) {
        match html_rendered(bytes, RENDER_WIDTH) {
            Ok(t) => if t.len() < usize::MAX {
                assert(plain_parse(bytes) == content_of(None, Seq::empty(), Ok(t)));
            },
            Err(_) => {},
        }
    }
}

/// The title, links and blocks of an EPUB: the archive must open and its
/// entries give the content (see `epub_from`), for some outcome of parsing
/// each spine document as HTML.
#[verifier::rlimit(60)]
pub fn epub_content(bytes: Vec<u8>) -> (r: Result<(Option<String>, Vec<ExtractedLink>, Vec<ExtractedBlock>), String>)
    ensures
        exists|a: Result<Seq<(Seq<char>, Seq<u8>)>, Seq<char>>, pages: Seq<PageContent>|
            #![trigger archive_opens(bytes@, "EPUB"@, a), epub_outcome(a, pages)]
            archive_opens(bytes@, "EPUB"@, a) && (a matches Ok(entries) ==> pages_fit(entries, pages))
                && content_result(r) == epub_outcome(a, pages),
        r matches Ok((_, _, blocks)) ==> blocks@.len() > 0,
{
    let ghost input = bytes@;
    let opened = BoundedArchive::open(bytes, "EPUB");
    let ghost a = match &opened {
        Ok(x) => Ok(x@),
        Err(e) => Err(e@),
    };
    assert(archive_opens(input, "EPUB"@, a));
    let archive = match opened {
        Ok(x) => x,
        Err(e) => {
            assert(content_result(Err(e)) == epub_outcome(a, Seq::empty()));
            return Err(e);
        },
    };
    let ghost entries = archive@;
    let container = match archive.required("META-INF/container.xml", "EPUB") {
        Ok(x) => x,
        Err(e) => {
            assert(epub_from(entries, Seq::empty()) == Err::<(Option<Seq<char>>, Seq<LinkView>, Seq<BlockView>), Seq<char>>(e@));
            assert(content_result(Err(e)) == epub_outcome(a, Seq::empty()));
            return Err(e);
        },
    };
    let package_path = match rootfile(&read_events(container.as_slice(), false)) {
        Ok(x) => x,
        Err(e) => {
            assert(epub_from(entries, Seq::empty()) == Err::<(Option<Seq<char>>, Seq<LinkView>, Seq<BlockView>), Seq<char>>(e@));
            assert(content_result(Err(e)) == epub_outcome(a, Seq::empty()));
            return Err(e);
        },
    };
    let package_xml = match archive.required(package_path.as_str(), "EPUB") {
        Ok(x) => x,
        Err(e) => {
            assert(epub_from(entries, Seq::empty()) == Err::<(Option<Seq<char>>, Seq<LinkView>, Seq<BlockView>), Seq<char>>(e@));
            assert(content_result(Err(e)) == epub_outcome(a, Seq::empty()));
            return Err(e);
        },
    };
    let package = match parse_package(&read_events(package_xml.as_slice(), true)) {
        Ok(x) => x,
        Err(e) => {
            assert(epub_from(entries, Seq::empty()) == Err::<(Option<Seq<char>>, Seq<LinkView>, Seq<BlockView>), Seq<char>>(e@));
            assert(content_result(Err(e)) == epub_outcome(a, Seq::empty()));
            return Err(e);
        },
    };
    let ghost path = package_path@;
    let ghost pv = package_view(package);
    assert(epub_package(entries) == Ok::<(Seq<char>, PackageView), Seq<char>>((path, pv)));
    let ghost manifest = pv.manifest;
    let ghost spine = pv.spine;
    let ghost mut pages: Seq<PageContent> = Seq::new(spine.len(), |k: int| unread_page(entries, path, manifest, spine[k]));
    let mut blocks: Vec<ExtractedBlock> = Vec::new();
    let mut links: Vec<ExtractedLink> = Vec::new();
    let mut i: usize = 0;
    proof {
        assert(block_views(blocks@) =~= Seq::<BlockView>::empty());
        assert(link_views(links@) =~= Seq::<LinkView>::empty());
        assert forall|k: int| 0 <= k < pages.len() implies (
            #[trigger] spine_page(entries, path, manifest, spine[k]) matches Some(page) ==> html_parsed(page, pages[k])) by {
            match spine_page(entries, path, manifest, spine[k]) {
                Some(page) => lemma_plain_parse(page),
                None => {},
            }
        }
    }
    while i < package.spine.len()
        invariant
            i <= package.spine@.len(),
            input == bytes@,
            archive_opens(input, "EPUB"@, Ok::<Seq<(Seq<char>, Seq<u8>)>, Seq<char>>(entries)),
            a == Ok::<Seq<(Seq<char>, Seq<u8>)>, Seq<char>>(entries),
            entries == archive@,
            path == package_path@,
            pv == package_view(package),
            manifest == pv.manifest,
            spine == pv.spine,
            epub_package(entries) == Ok::<(Seq<char>, PackageView), Seq<char>>((path, pv)),
            pages.len() == spine.len(),
            forall|k: int| 0 <= k < pages.len() ==> (
                #[trigger] spine_page(entries, path, manifest, spine[k]) matches Some(page) ==> html_parsed(page, pages[k])),
            forall|p: Seq<PageContent>| p.len() == spine.len() && (forall|k: int| 0 <= k < i ==> p[k] == pages[k])
                ==> #[trigger] spine_from(entries, path, manifest, spine, p, 0, Seq::empty(), Seq::empty())
                    == spine_from(entries, path, manifest, spine, p, i as int, block_views(blocks@), link_views(links@)),
        decreases package.spine@.len() - i,
    {
        let id = &package.spine[i];
        assert(id@ == spine[i as int]);
        let href = match lookup_pair(&package.manifest, chars_of(id.as_str()).as_slice()) {
            Some(h) => string_of(h.as_slice()),
            None => {
                let e = prefixed("EPUB spine references unknown manifest item: ", id.as_str());
                proof {
                    let ghost s0 = spine_from(entries, path, manifest, spine, pages, 0, Seq::empty(), Seq::empty());
                    assert(s0 == spine_from(entries, path, manifest, spine, pages, i as int, block_views(blocks@), link_views(links@)));
                    assert(s0 == Err::<(Seq<BlockView>, Seq<LinkView>), Seq<char>>(e@));
                    assert(content_result(Err(e)) == epub_outcome(a, pages));
                }
                return Err(e);
            },
        };
        let resource = match resolve(package_path.as_str(), href.as_str()) {
            Ok(x) => x,
            Err(e) => {
                proof {
                    let ghost s0 = spine_from(entries, path, manifest, spine, pages, 0, Seq::empty(), Seq::empty());
                    assert(s0 == spine_from(entries, path, manifest, spine, pages, i as int, block_views(blocks@), link_views(links@)));
                    assert(s0 == Err::<(Seq<BlockView>, Seq<LinkView>), Seq<char>>(e@));
                    assert(content_result(Err(e)) == epub_outcome(a, pages));
                }
                return Err(e);
            },
        };
        let page = match archive.required(resource.as_str(), "EPUB") {
            Ok(x) => x,
            Err(e) => {
                proof {
                    let ghost s0 = spine_from(entries, path, manifest, spine, pages, 0, Seq::empty(), Seq::empty());
                    assert(s0 == spine_from(entries, path, manifest, spine, pages, i as int, block_views(blocks@), link_views(links@)));
                    assert(s0 == Err::<(Seq<BlockView>, Seq<LinkView>), Seq<char>>(e@));
                    assert(content_result(Err(e)) == epub_outcome(a, pages));
                }
                return Err(e);
            },
        };
        assert(spine_page(entries, path, manifest, spine[i as int]) == Some(page@));
        let parsed = crate::html::parse(page.as_slice());
        let ghost c = content_view(parsed);
        let ghost before = pages;
        proof {
            pages = pages.update(i as int, c);
            assert forall|p: Seq<PageContent>| p.len() == spine.len() && (forall|k: int| 0 <= k < i ==> p[k] == pages[k])
                implies (forall|k: int| 0 <= k < i ==> p[k] == before[k]) by {
                assert forall|k: int| 0 <= k < i implies p[k] == before[k] by {
                    assert(pages[k] == before[k]);
                }
            }
        }
        let content = match parsed {
            Ok(x) => x,
            Err(e) => {
                proof {
                    let ghost s0 = spine_from(entries, path, manifest, spine, pages, 0, Seq::empty(), Seq::empty());
                    assert(s0 == spine_from(entries, path, manifest, spine, pages, i as int, block_views(blocks@), link_views(links@)));
                    assert(s0 == Err::<(Seq<BlockView>, Seq<LinkView>), Seq<char>>(e@));
                    assert(content_result(Err(e)) == epub_outcome(a, pages));
                }
                return Err(e);
            },
        };
        let ghost bv0 = block_views(blocks@);
        let ghost lv0 = link_views(links@);
        let ghost sec = block_views(content.sections@);
        let ghost title_v = opt_view(content.title);
        let mut placed = relocate(content.sections, Some(resource.as_str()));
        let ghost lb = block_views(placed@);
        proof {
            let ghost f = |k: u64| place(Some(resource@), k);
            assert(lb =~= located(sec, f));
        }
        let ghost raw_before = blocks@;
        let ghost raw_located = placed@;
        blocks.append(&mut placed);
        proof {
            assert(blocks@ =~= raw_before + raw_located);
            assert(block_views(blocks@) =~= bv0 + lb);
        }
        let ghost plinks = link_views(content.links@);
        match append_links(&mut links, content.links, resource.as_str()) {
            Ok(()) => {},
            Err(e) => {
                proof {
                    let ghost s0 = spine_from(entries, path, manifest, spine, pages, 0, Seq::empty(), Seq::empty());
                    assert(s0 == spine_from(entries, path, manifest, spine, pages, i as int, bv0, lv0));
                    assert(s0 == Err::<(Seq<BlockView>, Seq<LinkView>), Seq<char>>(e@));
                    assert(content_result(Err(e)) == epub_outcome(a, pages));
                }
                return Err(e);
            },
        }
        proof {
            assert forall|p: Seq<PageContent>| p.len() == spine.len() && (forall|k: int| 0 <= k < i + 1 ==> p[k] == pages[k])
                implies #[trigger] spine_from(entries, path, manifest, spine, p, 0, Seq::empty(), Seq::empty())
                    == spine_from(entries, path, manifest, spine, p, i + 1, block_views(blocks@), link_views(links@)) by {
                assert forall|k: int| 0 <= k < i implies p[k] == before[k] by {
                    assert(pages[k] == before[k]);
                }
                assert(spine_from(entries, path, manifest, spine, p, 0, Seq::empty(), Seq::empty())
                    == spine_from(entries, path, manifest, spine, p, i as int, bv0, lv0));
                assert(p[i as int] == c);
                assert(lookup(manifest, spine[i as int]) == Some(href@));
                assert(resolved(path, href@) == Ok::<Seq<char>, Seq<char>>(resource@));
                assert(named_entry(entries, resource@) == Some(page@));
                assert(c == Ok::<(Option<Seq<char>>, Seq<LinkView>, Seq<BlockView>), Seq<char>>((title_v, plinks, sec)));
                assert(resolved_links(plinks, resource@).1 is None);
                assert(block_views(blocks@) == bv0 + located(sec, |k: u64| place(Some(resource@), k)));
                assert(link_views(links@) == lv0 + resolved_links(plinks, resource@).0);
            }
        }
        i = i + 1;
    }
    if blocks.len() == 0 {
        let e = "EPUB does not contain readable spine text.".to_owned();
        proof {
            let ghost s0 = spine_from(entries, path, manifest, spine, pages, 0, Seq::empty(), Seq::empty());
            assert(s0 == spine_from(entries, path, manifest, spine, pages, i as int, block_views(blocks@), link_views(links@)));
            assert(content_result(Err(e)) == epub_outcome(a, pages));
        }
        return Err(e);
    }
    let r = Ok((package.title, links, blocks));
    proof {
        let ghost s0 = spine_from(entries, path, manifest, spine, pages, 0, Seq::empty(), Seq::empty());
        assert(s0 == spine_from(entries, path, manifest, spine, pages, i as int, block_views(blocks@), link_views(links@)));
        assert(content_result(r) == epub_outcome(a, pages));
    }
    r
}

/// The document of an EPUB file's bytes: its content, or metadata only with
/// the reason it could not be read (see `epub_content`).
pub fn extract(bytes: Vec<u8>) -> (d: ExtractedDocument)
    ensures
        d.extractor_id@ == "builtin-epub"@,
        d.status == crate::extract::ExtractionStatus::TextReady ==> d.blocks@.len() > 0,
        exists|a: Result<Seq<(Seq<char>, Seq<u8>)>, Seq<char>>, pages: Seq<PageContent>|
            #![trigger archive_opens(bytes@, "EPUB"@, a), epub_outcome(a, pages)]
            archive_opens(bytes@, "EPUB"@, a) && (a matches Ok(entries) ==> pages_fit(entries, pages))
                && document_view(d) == structured_document("builtin-epub"@, epub_outcome(a, pages)),
{
    let r = epub_content(bytes);
    let ghost rv = content_result(r);
    let d = structured("builtin-epub", r);
    proof {
        assert(block_views(d.blocks@).len() == d.blocks@.len());
    }
    d
}

} // verus!
