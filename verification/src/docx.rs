//! DOCX text extraction: titles, styles, hyperlink relationships and the
//! paragraph/table state machine over the document's XML events.

use vstd::prelude::*;
use crate::extract::{
    ExtractedDocument, ExtractionStatus,
    block_view, block_views, BlockView, ExtractedBlock, LocationView, SourceLocation, opt_view, document_view, structured_document,
};
use crate::text::{
    ends_with, ends_with_exec, equal_chars, ascii_bytes, ascii_lower, append_chars, bytes_equal_ascii, chars_of, join, prefixed,
    starts_with, starts_with_exec, string_of, to_ascii_lower, trim, trimmed, vviews,
};
use crate::xml::{read_events, xml_events, local, local_name, attribute_lookup, AttributeError, XmlAttribute, XmlElement, XmlEvent};
use crate::archive::named_entry;

verus! {

/// A hyperlink found in a document.
#[derive(Debug)]
pub struct ExtractedLink {
    pub text: Option<String>,
    pub target: String,
    pub location: Option<SourceLocation>,
}

pub struct LinkView {
    pub text: Option<Seq<char>>,
    pub target: Seq<char>,
    pub location: Option<LocationView>,
}

pub open spec fn link_view(l: ExtractedLink) -> LinkView {
    LinkView {
        text: opt_view(l.text),
        target: l.target@,
        location: match l.location {
            Some(x) => Some(crate::extract::location_view(x)),
            None => None,
        },
    }
}

pub open spec fn link_views(v: Seq<ExtractedLink>) -> Seq<LinkView> {
    v.map_values(|l: ExtractedLink| link_view(l))
}

/// Key/value pairs where a later pair overrides an earlier one with the same key.
pub open spec fn pair_views(v: Seq<(String, String)>) -> Seq<(Seq<char>, Seq<char>)> {
    v.map_values(|p: (String, String)| (p.0@, p.1@))
}

/// The value of the last pair with key `k`.
pub open spec fn lookup(v: Seq<(Seq<char>, Seq<char>)>, k: Seq<char>) -> Option<Seq<char>>
    decreases v.len(),
{
    if v.len() == 0 {
        None
    } else if v.last().0 == k {
        Some(v.last().1)
    } else {
        lookup(v.drop_last(), k)
    }
}

/// The value of the last pair with key `key`.
pub fn lookup_pair(v: &Vec<(String, String)>, key: &[char]) -> (out: Option<Vec<char>>)
    ensures
        match out {
            Some(x) => lookup(pair_views(v@), key@) == Some(x@),
            None => lookup(pair_views(v@), key@) is None,
        },
{
    let mut i: usize = v.len();
    let ghost pv = pair_views(v@);
    proof {
        assert(pv.take(v@.len() as int) =~= pv);
    }
    while i > 0
        invariant
            i <= v@.len(),
            pv == pair_views(v@),
            lookup(pv, key@) == lookup(pv.take(i as int), key@),
        decreases i,
    {
        let k = chars_of(v[i - 1].0.as_str());
        proof {
            assert(pv.take(i as int).drop_last() =~= pv.take(i - 1));
        }
        if k.len() == key.len() && equal_chars(k.as_slice(), key) {
            return Some(chars_of(v[i - 1].1.as_str()));
        }
        i = i - 1;
    }
    proof {
        assert(pv.take(0) =~= Seq::<(Seq<char>, Seq<char>)>::empty());
    }
    None
}


/// The error message for an attribute that could not be read.
pub open spec fn attribute_message(format: Seq<char>, e: AttributeError) -> Seq<char> {
    match e {
        AttributeError::Malformed(m) => "Invalid "@ + format + " XML attribute: "@ + m,
        AttributeError::Undecodable(m) => "Cannot decode "@ + format + " XML attribute: "@ + m,
    }
}

/// The attribute `name` of `element`, with the extractor's error messages.
pub open spec fn spec_attribute(element: XmlElement, name: Seq<u8>, format: Seq<char>) -> Result<Option<Seq<char>>, Seq<char>> {
    match attribute_lookup(element.attributes@, name) {
        Ok(v) => Ok(v),
        Err(e) => Err(attribute_message(format, e)),
    }
}

/// Read attribute `name` (ASCII) of `element`.
pub fn attribute(element: &XmlElement, name: &str, format: &str) -> (r: Result<Option<String>, String>)
    ensures
        match r {
            Ok(v) => spec_attribute(*element, ascii_bytes(name@), format@) == Ok::<Option<Seq<char>>, Seq<char>>(opt_view(v)),
            Err(m) => spec_attribute(*element, ascii_bytes(name@), format@) == Err::<Option<Seq<char>>, Seq<char>>(m@),
        },
{
    let attrs = &element.attributes;
    let mut i: usize = 0;
    proof {
        assert(attrs@.skip(0) =~= attrs@);
    }
    while i < attrs.len()
        invariant
            i <= attrs@.len(),
            attrs == &element.attributes,
            attribute_lookup(attrs@, ascii_bytes(name@)) == attribute_lookup(attrs@.skip(i as int), ascii_bytes(name@)),
        decreases attrs@.len() - i,
    {
        proof {
            assert(attrs@.skip(i as int).drop_first() =~= attrs@.skip(i + 1));
        }
        match &attrs[i] {
            XmlAttribute::Malformed(m) => {
                let mut out = prefixed("Invalid ", format);
                out.append(" XML attribute: ");
                out.append(m.as_str());
                return Err(out);
            },
            XmlAttribute::Pair { key, value } => {
                let l = local(key.as_slice());
                if bytes_equal_ascii(l.as_slice(), name) {
                    match value {
                        Ok(v) => {
                            return Ok(Some(v.clone()));
                        },
                        Err(m) => {
                            let mut out = prefixed("Cannot decode ", format);
                            out.append(" XML attribute: ");
                            out.append(m.as_str());
                            return Err(out);
                        },
                    }
                }
            },
        }
        i = i + 1;
    }
    proof {
        assert(attrs@.skip(attrs@.len() as int) =~= Seq::<XmlAttribute>::empty());
    }
    Ok(None)
}

/// The element's local name is the ASCII `lit`.
pub open spec fn named(element: XmlElement, lit: Seq<char>) -> bool {
    local_name(element.name@) == ascii_bytes(lit)
}

pub(crate) fn is_named(element: &XmlElement, lit: &str) -> (b: bool)
    ensures
        b == named(*element, lit@),
{
    let l = local(element.name.as_slice());
    bytes_equal_ascii(l.as_slice(), lit)
}

pub(crate) fn end_named(name: &Vec<u8>, lit: &str) -> (b: bool)
    ensures
        b == (local_name(name@) == ascii_bytes(lit@)),
{
    let l = local(name.as_slice());
    bytes_equal_ascii(l.as_slice(), lit)
}

// ---------------------------------------------------------------- core properties

/// The document title in `docProps/core.xml`: the trimmed text of the first
/// `title` element, absent when blank or missing.
pub open spec fn title_from(events: Seq<XmlEvent>, i: int, in_title: bool) -> Result<Option<Seq<char>>, Seq<char>>
    decreases events.len() - i,
{
    if i < 0 || i >= events.len() {
        Ok(None)
    } else {
        match events[i] {
            XmlEvent::Start(e) if named(e, "title"@) => title_from(events, i + 1, true),
            XmlEvent::Text(t) if in_title => match t {
                Ok(v) => Ok(if trim(v@).len() == 0 { None } else { Some(trim(v@)) }),
                Err(m) => Err("Cannot decode DOCX title: "@ + m@),
            },
            XmlEvent::End(n) if local_name(n@) == ascii_bytes("title"@) => Ok(None),
            XmlEvent::Eof => Ok(None),
            XmlEvent::Error(m) => Err("Cannot parse DOCX core properties: "@ + m@),
            XmlEvent::Stalled => Err("Cannot parse DOCX core properties: "@ + "the XML reader stopped advancing within its input"@),
            _ => title_from(events, i + 1, in_title),
        }
    }
}

pub open spec fn opt_seq_result(r: Result<Option<String>, String>) -> Result<Option<Seq<char>>, Seq<char>> {
    match r {
        Ok(v) => Ok(opt_view(v)),
        Err(m) => Err(m@),
    }
}

/// The title of a DOCX (see `title_from`).
pub fn parse_title(events: &Vec<XmlEvent>) -> (r: Result<Option<String>, String>)
    ensures
        opt_seq_result(r) == title_from(events@, 0, false),
{
    let mut in_title = false;
    let mut i: usize = 0;
    while i < events.len()
        invariant
            i <= events@.len(),
            title_from(events@, 0, false) == title_from(events@, i as int, in_title),
        decreases events@.len() - i,
    {
        match &events[i] {
            XmlEvent::Start(e) if is_named(e, "title") => {
                in_title = true;
            },
            XmlEvent::Text(t) if in_title => match t {
                Ok(v) => {
                    let c = chars_of(v.as_str());
                    let value = trimmed(c.as_slice());
                    return Ok(if value.len() == 0 { None } else { Some(string_of(value.as_slice())) });
                },
                Err(m) => {
                    return Err(prefixed("Cannot decode DOCX title: ", m.as_str()));
                },
            },
            XmlEvent::End(n) if end_named(n, "title") => {
                return Ok(None);
            },
            XmlEvent::Eof => {
                return Ok(None);
            },
            XmlEvent::Error(m) => {
                return Err(prefixed("Cannot parse DOCX core properties: ", m.as_str()));
            },
            XmlEvent::Stalled => {
                return Err(prefixed("Cannot parse DOCX core properties: ", "the XML reader stopped advancing within its input"));
            },
            _ => {},
        }
        i = i + 1;
    }
    Ok(None)
}

// ---------------------------------------------------------------- styles

/// Style ids and names from `word/styles.xml`, in document order.
pub open spec fn styles_from(events: Seq<XmlEvent>, i: int, current: Option<Seq<char>>, acc: Seq<(Seq<char>, Seq<char>)>) -> Result<Seq<(Seq<char>, Seq<char>)>, Seq<char>>
    decreases events.len() - i,
{
    if i < 0 || i >= events.len() {
        Ok(acc)
    } else {
        match events[i] {
            XmlEvent::Start(e) if named(e, "style"@) => match spec_attribute(e, ascii_bytes("styleId"@), "DOCX"@) {
                Ok(v) => styles_from(events, i + 1, v, acc),
                Err(m) => Err(m),
            },
            XmlEvent::Start(e) if named(e, "name"@) => match spec_attribute(e, ascii_bytes("val"@), "DOCX"@) {
                Ok(v) => styles_from(events, i + 1, current, if current is Some && v is Some { acc.push((current.unwrap(), v.unwrap())) } else { acc }),
                Err(m) => Err(m),
            },
            XmlEvent::Empty(e) if named(e, "name"@) => match spec_attribute(e, ascii_bytes("val"@), "DOCX"@) {
                Ok(v) => styles_from(events, i + 1, current, if current is Some && v is Some { acc.push((current.unwrap(), v.unwrap())) } else { acc }),
                Err(m) => Err(m),
            },
            XmlEvent::End(n) if local_name(n@) == ascii_bytes("style"@) => styles_from(events, i + 1, None, acc),
            XmlEvent::Eof => Ok(acc),
            XmlEvent::Error(m) => Err("Cannot parse DOCX styles: "@ + m@),
            XmlEvent::Stalled => Err("Cannot parse DOCX styles: "@ + "the XML reader stopped advancing within its input"@),
            _ => styles_from(events, i + 1, current, acc),
        }
    }
}

pub open spec fn pairs_result(r: Result<Vec<(String, String)>, String>) -> Result<Seq<(Seq<char>, Seq<char>)>, Seq<char>> {
    match r {
        Ok(v) => Ok(pair_views(v@)),
        Err(m) => Err(m@),
    }
}

pub(crate) fn push_pair(acc: &mut Vec<(String, String)>, k: String, v: String)
    ensures
        pair_views(final(acc)@) == pair_views(old(acc)@).push((k@, v@)),
{
    let ghost before = acc@;
    acc.push((k, v));
    proof {
        assert(pair_views(acc@) =~= pair_views(before).push((k@, v@)));
    }
}

fn add_style(styles: &mut Vec<(String, String)>, current: &Option<String>, e: &XmlElement) -> (r: Result<(), String>)
    ensures
        match spec_attribute(*e, ascii_bytes("val"@), "DOCX"@) {
            Ok(v) => r is Ok && pair_views(final(styles)@) == if current is Some && v is Some {
                pair_views(old(styles)@).push((current.unwrap()@, v.unwrap()))
            } else {
                pair_views(old(styles)@)
            },
            Err(m) => r == Err::<(), String>(r->Err_0) && r->Err_0@ == m,
        },
{
    let v = attribute(e, "val", "DOCX")?;
    match (current, v) {
        (Some(id), Some(name)) => push_pair(styles, id.clone(), name),
        _ => {},
    }
    Ok(())
}

/// The style table of a DOCX (see `styles_from`).
pub fn parse_styles(events: &Vec<XmlEvent>) -> (r: Result<Vec<(String, String)>, String>)
    ensures
        pairs_result(r) == styles_from(events@, 0, None, Seq::empty()),
{
    let mut styles: Vec<(String, String)> = Vec::new();
    let mut current: Option<String> = None;
    let mut i: usize = 0;
    proof {
        assert(pair_views(styles@) =~= Seq::<(Seq<char>, Seq<char>)>::empty());
    }
    while i < events.len()
        invariant
            i <= events@.len(),
            styles_from(events@, 0, None, Seq::empty()) == styles_from(events@, i as int, opt_view(current), pair_views(styles@)),
        decreases events@.len() - i,
    {
        match &events[i] {
            XmlEvent::Start(e) if is_named(e, "style") => {
                current = attribute(e, "styleId", "DOCX")?;
            },
            XmlEvent::Start(e) if is_named(e, "name") => {
                add_style(&mut styles, &current, e)?;
            },
            XmlEvent::Empty(e) if is_named(e, "name") => {
                add_style(&mut styles, &current, e)?;
            },
            XmlEvent::End(n) if end_named(n, "style") => {
                current = None;
            },
            XmlEvent::Eof => {
                return Ok(styles);
            },
            XmlEvent::Error(m) => {
                return Err(prefixed("Cannot parse DOCX styles: ", m.as_str()));
            },
            XmlEvent::Stalled => {
                return Err(prefixed("Cannot parse DOCX styles: ", "the XML reader stopped advancing within its input"));
            },
            _ => {},
        }
        i = i + 1;
    }
    Ok(styles)
}

// ---------------------------------------------------------------- relationships


/// One `Relationship` element: hyperlink relationships are recorded by id.
pub open spec fn relationship_step(e: XmlElement, acc: Seq<(Seq<char>, Seq<char>)>) -> Result<Seq<(Seq<char>, Seq<char>)>, Seq<char>> {
    match spec_attribute(e, ascii_bytes("Type"@), "DOCX"@) {
        Err(m) => Err(m),
        Ok(kind) => {
            let kind = match kind { Some(k) => k, None => Seq::empty() };
            if ends_with(kind, "/hyperlink"@) {
                match spec_attribute(e, ascii_bytes("Id"@), "DOCX"@) {
                    Err(m) => Err(m),
                    Ok(None) => Err("DOCX hyperlink relationship has no Id."@),
                    Ok(Some(id)) => match spec_attribute(e, ascii_bytes("Target"@), "DOCX"@) {
                        Err(m) => Err(m),
                        Ok(None) => Err("DOCX hyperlink relationship "@ + id + " has no target."@),
                        Ok(Some(target)) => Ok(acc.push((id, target))),
                    },
                }
            } else {
                Ok(acc)
            }
        },
    }
}

/// Hyperlink relationship targets of `word/_rels/document.xml.rels`, by id.
pub open spec fn relationships_from(events: Seq<XmlEvent>, i: int, acc: Seq<(Seq<char>, Seq<char>)>) -> Result<Seq<(Seq<char>, Seq<char>)>, Seq<char>>
    decreases events.len() - i,
{
    if i < 0 || i >= events.len() {
        Ok(acc)
    } else {
        match events[i] {
            XmlEvent::Start(e) if named(e, "Relationship"@) => match relationship_step(e, acc) {
                Ok(a) => relationships_from(events, i + 1, a),
                Err(m) => Err(m),
            },
            XmlEvent::Empty(e) if named(e, "Relationship"@) => match relationship_step(e, acc) {
                Ok(a) => relationships_from(events, i + 1, a),
                Err(m) => Err(m),
            },
            XmlEvent::Eof => Ok(acc),
            XmlEvent::Error(m) => Err("Cannot parse DOCX relationships: "@ + m@),
            XmlEvent::Stalled => Err("Cannot parse DOCX relationships: "@ + "the XML reader stopped advancing within its input"@),
            _ => relationships_from(events, i + 1, acc),
        }
    }
}

fn add_relationship(acc: &mut Vec<(String, String)>, e: &XmlElement) -> (r: Result<(), String>)
    ensures
        match relationship_step(*e, pair_views(old(acc)@)) {
            Ok(a) => r is Ok && pair_views(final(acc)@) == a,
            Err(m) => r is Err && r->Err_0@ == m,
        },
{
    let kind = match attribute(e, "Type", "DOCX")? {
        Some(k) => k,
        None => String::new(),
    };
    let kc = chars_of(kind.as_str());
    let suffix = chars_of("/hyperlink");
    if ends_with_exec(kc.as_slice(), suffix.as_slice()) {
        let id = match attribute(e, "Id", "DOCX")? {
            Some(id) => id,
            None => {
                return Err(String::from_str("DOCX hyperlink relationship has no Id."));
            },
        };
        let target = match attribute(e, "Target", "DOCX")? {
            Some(t) => t,
            None => {
                let mut m = prefixed("DOCX hyperlink relationship ", id.as_str());
                m.append(" has no target.");
                return Err(m);
            },
        };
        push_pair(acc, id, target);
    }
    Ok(())
}

/// The hyperlink relationships of a DOCX (see `relationships_from`).
pub fn parse_relationships(events: &Vec<XmlEvent>) -> (r: Result<Vec<(String, String)>, String>)
    ensures
        pairs_result(r) == relationships_from(events@, 0, Seq::empty()),
{
    let mut relationships: Vec<(String, String)> = Vec::new();
    let mut i: usize = 0;
    proof {
        assert(pair_views(relationships@) =~= Seq::<(Seq<char>, Seq<char>)>::empty());
    }
    while i < events.len()
        invariant
            i <= events@.len(),
            relationships_from(events@, 0, Seq::empty()) == relationships_from(events@, i as int, pair_views(relationships@)),
        decreases events@.len() - i,
    {
        match &events[i] {
            XmlEvent::Start(e) if is_named(e, "Relationship") => {
                add_relationship(&mut relationships, e)?;
            },
            XmlEvent::Empty(e) if is_named(e, "Relationship") => {
                add_relationship(&mut relationships, e)?;
            },
            XmlEvent::Eof => {
                return Ok(relationships);
            },
            XmlEvent::Error(m) => {
                return Err(prefixed("Cannot parse DOCX relationships: ", m.as_str()));
            },
            XmlEvent::Stalled => {
                return Err(prefixed("Cannot parse DOCX relationships: ", "the XML reader stopped advancing within its input"));
            },
            _ => {},
        }
        i = i + 1;
    }
    Ok(relationships)
}

// ---------------------------------------------------------------- document body

/// A paragraph being read.
pub struct ParaView {
    pub number: u64,
    pub style: Option<Seq<char>>,
    pub text: Seq<char>,
    pub links: Seq<(Seq<char>, Seq<char>)>,
    pub active: Option<(Seq<char>, Seq<char>)>,
}

/// The reader state of `word/document.xml`.
pub struct DocView {
    pub blocks: Seq<BlockView>,
    pub links: Seq<LinkView>,
    pub pcount: u64,
    pub para: Option<ParaView>,
    pub in_text: bool,
    pub tcount: u64,
    pub rcount: u64,
    pub in_table: bool,
    pub row_first: Option<u64>,
    pub cell: Seq<char>,
    pub cells: Seq<Seq<char>>,
}

pub open spec fn doc_init() -> DocView {
    DocView {
        blocks: Seq::empty(),
        links: Seq::empty(),
        pcount: 0,
        para: None,
        in_text: false,
        tcount: 0,
        rcount: 0,
        in_table: false,
        row_first: None,
        cell: Seq::empty(),
        cells: Seq::empty(),
    }
}

/// Text added to the open paragraph, and to its open hyperlink label.
pub open spec fn append_para(p: Option<ParaView>, v: Seq<char>) -> Option<ParaView> {
    match p {
        None => None,
        Some(p) => Some(
            ParaView {
                text: p.text + v,
                active: match p.active {
                    Some((id, label)) => Some((id, label + v)),
                    None => None,
                },
                ..p
            },
        ),
    }
}

/// A paragraph style, or the style's display name, starts with `heading`
/// (ASCII case-insensitively).
pub open spec fn heading_style(style: Option<Seq<char>>, styles: Seq<(Seq<char>, Seq<char>)>) -> bool {
    match style {
        Some(s) => starts_with(ascii_lower(s), "heading"@) || match lookup(styles, s) {
            Some(n) => starts_with(ascii_lower(n), "heading"@),
            None => false,
        },
        None => false,
    }
}

/// The links of a finished paragraph whose relationship id is known.
pub open spec fn para_links(links: Seq<(Seq<char>, Seq<char>)>, rels: Seq<(Seq<char>, Seq<char>)>, loc: LocationView) -> Seq<LinkView>
    decreases links.len(),
{
    if links.len() == 0 {
        Seq::empty()
    } else {
        let (id, label) = links.last();
        let rest = para_links(links.drop_last(), rels, loc);
        match lookup(rels, id) {
            Some(target) => rest.push(
                LinkView {
                    text: if trim(label).len() == 0 { None } else { Some(trim(label)) },
                    target,
                    location: Some(loc),
                },
            ),
            None => rest,
        }
    }
}

/// Blocks and links after a paragraph outside any table ends.
pub open spec fn finish_para(p: ParaView, styles: Seq<(Seq<char>, Seq<char>)>, rels: Seq<(Seq<char>, Seq<char>)>, st: DocView) -> DocView {
    let text = trim(p.text);
    if text.len() == 0 {
        st
    } else {
        let loc = LocationView::Docx { paragraph: p.number, table: None, row: None };
        DocView {
            blocks: st.blocks.push(
                BlockView {
                    heading: if heading_style(p.style, styles) { Some(text) } else { None },
                    text,
                    line_start: None,
                    location: Some(loc),
                },
            ),
            links: st.links + para_links(p.links, rels, loc),
            ..st
        }
    }
}

/// A `pStyle` element sets the open paragraph's style.
pub open spec fn style_step(st: DocView, e: XmlElement) -> Result<DocView, Seq<char>> {
    match spec_attribute(e, ascii_bytes("val"@), "DOCX"@) {
        Err(m) => Err(m),
        Ok(Some(v)) => Ok(
            match st.para {
                Some(p) => DocView { para: Some(ParaView { style: Some(v), ..p }), ..st },
                None => st,
            },
        ),
        Ok(None) => Ok(st),
    }
}

/// A start element.
pub open spec fn start_step(st: DocView, e: XmlElement) -> Result<DocView, Seq<char>> {
    if named(e, "tbl"@) {
        Ok(DocView { tcount: (st.tcount + 1) as u64, rcount: 0, in_table: true, ..st })
    } else if named(e, "tr"@) {
        Ok(DocView { rcount: (st.rcount + 1) as u64, row_first: None, cells: Seq::empty(), ..st })
    } else if named(e, "tc"@) {
        Ok(DocView { cell: Seq::empty(), ..st })
    } else if named(e, "p"@) {
        let n = (st.pcount + 1) as u64;
        Ok(
            DocView {
                pcount: n,
                row_first: if st.row_first is None { Some(n) } else { st.row_first },
                para: Some(ParaView { number: n, style: None, text: Seq::empty(), links: Seq::empty(), active: None }),
                ..st
            },
        )
    } else if named(e, "pStyle"@) {
        style_step(st, e)
    } else if named(e, "hyperlink"@) {
        match spec_attribute(e, ascii_bytes("id"@), "DOCX"@) {
            Err(m) => Err(m),
            Ok(Some(id)) => Ok(
                match st.para {
                    Some(p) => DocView { para: Some(ParaView { active: Some((id, Seq::empty())), ..p }), ..st },
                    None => st,
                },
            ),
            Ok(None) => Ok(st),
        }
    } else if named(e, "t"@) {
        Ok(DocView { in_text: true, ..st })
    } else if named(e, "tab"@) {
        Ok(DocView { para: append_para(st.para, seq!['\t']), ..st })
    } else if named(e, "br"@) {
        Ok(DocView { para: append_para(st.para, seq!['\n']), ..st })
    } else {
        Ok(st)
    }
}

/// An empty element.
pub open spec fn empty_step(st: DocView, e: XmlElement) -> Result<DocView, Seq<char>> {
    if named(e, "pStyle"@) {
        style_step(st, e)
    } else if named(e, "tab"@) {
        Ok(DocView { para: append_para(st.para, seq!['\t']), ..st })
    } else if named(e, "br"@) {
        Ok(DocView { para: append_para(st.para, seq!['\n']), ..st })
    } else {
        Ok(st)
    }
}

pub open spec fn end_is(n: Seq<u8>, lit: Seq<char>) -> bool {
    local_name(n) == ascii_bytes(lit)
}

/// An end element.
pub open spec fn end_step(st: DocView, n: Seq<u8>, styles: Seq<(Seq<char>, Seq<char>)>, rels: Seq<(Seq<char>, Seq<char>)>) -> Result<DocView, Seq<char>> {
    if end_is(n, "t"@) {
        Ok(DocView { in_text: false, ..st })
    } else if end_is(n, "hyperlink"@) {
        Ok(
            match st.para {
                Some(p) => match p.active {
                    Some(l) => DocView { para: Some(ParaView { links: p.links.push(l), active: None, ..p }), ..st },
                    None => st,
                },
                None => st,
            },
        )
    } else if end_is(n, "p"@) {
        match st.para {
            None => Err("DOCX paragraph end has no matching start."@),
            Some(f) => {
                let st2 = DocView { para: None, ..st };
                if st.in_table {
                    let cell = if st.cell.len() > 0 && f.text.len() > 0 { st.cell.push('\n') } else { st.cell };
                    Ok(DocView { cell: cell + f.text, ..st2 })
                } else {
                    Ok(finish_para(f, styles, rels, st2))
                }
            },
        }
    } else if end_is(n, "tc"@) {
        let value = trim(st.cell);
        Ok(if value.len() > 0 { DocView { cells: st.cells.push(value), ..st } } else { st })
    } else if end_is(n, "tr"@) {
        let text = join(st.cells, " | "@);
        Ok(
            if text.len() > 0 {
                DocView {
                    blocks: st.blocks.push(
                        BlockView {
                            heading: None,
                            text,
                            line_start: None,
                            location: Some(
                                LocationView::Docx {
                                    paragraph: match st.row_first { Some(r) => r, None => st.pcount },
                                    table: Some(st.tcount),
                                    row: Some(st.rcount),
                                },
                            ),
                        },
                    ),
                    ..st
                }
            } else {
                st
            },
        )
    } else if end_is(n, "tbl"@) {
        Ok(DocView { in_table: false, ..st })
    } else {
        Ok(st)
    }
}

/// The blocks and links of `word/document.xml`: one block per nonblank paragraph
/// outside tables (a heading when its style says so), one block per nonblank table
/// row with its cells joined by ` | `, and every hyperlink with a known target.
pub open spec fn document_from(events: Seq<XmlEvent>, i: int, st: DocView, styles: Seq<(Seq<char>, Seq<char>)>, rels: Seq<(Seq<char>, Seq<char>)>) -> Result<(Seq<BlockView>, Seq<LinkView>), Seq<char>>
    decreases events.len() - i,
{
    if i < 0 || i >= events.len() {
        Ok((st.blocks, st.links))
    } else {
        let next = match events[i] {
            XmlEvent::Start(e) => start_step(st, e),
            XmlEvent::Empty(e) => empty_step(st, e),
            XmlEvent::Text(t) => if st.in_text {
                match t {
                    Ok(v) => Ok(DocView { para: append_para(st.para, v@), ..st }),
                    Err(m) => Err("Cannot decode DOCX text: "@ + m@),
                }
            } else {
                Ok(st)
            },
            XmlEvent::End(n) => end_step(st, n@, styles, rels),
            _ => Ok(st),
        };
        match events[i] {
            XmlEvent::Eof => Ok((st.blocks, st.links)),
            XmlEvent::Error(m) => Err("Cannot parse DOCX document XML: "@ + m@),
            XmlEvent::Stalled => Err("Cannot parse DOCX document XML: "@ + "the XML reader stopped advancing within its input"@),
            _ => match next {
                Ok(s) => document_from(events, i + 1, s, styles, rels),
                Err(m) => Err(m),
            },
        }
    }
}

/// A block as the DOCX reader makes one: nonblank trimmed text, no line,
/// a DOCX location, and, when it is a heading, the heading is its text.
pub open spec fn docx_block(b: BlockView) -> bool {
    &&& b.text.len() > 0
    &&& trim(b.text) == b.text
    &&& b.line_start is None
    &&& b.location matches Some(LocationView::Docx { .. })
    &&& (b.heading is Some ==> b.heading == Some(b.text))
}

/// A target that one of the relationships names.
pub open spec fn rel_target(rels: Seq<(Seq<char>, Seq<char>)>, t: Seq<char>) -> bool {
    exists|k: int| 0 <= k < rels.len() && (#[trigger] rels[k]).1 == t
}

/// Text that neither starts nor ends with whitespace, and is not empty.
pub open spec fn clean_text(s: Seq<char>) -> bool {
    s.len() > 0 && !crate::text::is_ws(s[0]) && !crate::text::is_ws(s.last())
}

/// What the reader state keeps: its blocks are DOCX blocks, its links point
/// at relationship targets, and its finished cells are clean.
pub open spec fn doc_clean(st: DocView, rels: Seq<(Seq<char>, Seq<char>)>) -> bool {
    &&& forall|k: int| 0 <= k < st.blocks.len() ==> docx_block(#[trigger] st.blocks[k])
    &&& forall|k: int| 0 <= k < st.links.len() ==> rel_target(rels, (#[trigger] st.links[k]).target)
    &&& forall|k: int| 0 <= k < st.cells.len() ==> clean_text(#[trigger] st.cells[k])
}

proof fn lemma_lookup_target(rels: Seq<(Seq<char>, Seq<char>)>, id: Seq<char>)
    ensures
        lookup(rels, id) matches Some(t) ==> rel_target(rels, t),
    decreases rels.len(),
{
    if rels.len() > 0 && rels.last().0 != id {
        lemma_lookup_target(rels.drop_last(), id);
        match lookup(rels, id) {
            Some(t) => {
                let k = choose|k: int| 0 <= k < rels.drop_last().len() && (#[trigger] rels.drop_last()[k]).1 == t;
                assert(rels[k] == rels.drop_last()[k]);
            },
            None => {},
        }
    } else if rels.len() > 0 {
        assert(rels[rels.len() - 1].1 == rels.last().1);
    }
}

proof fn lemma_para_links_targets(links: Seq<(Seq<char>, Seq<char>)>, rels: Seq<(Seq<char>, Seq<char>)>, loc: LocationView)
    ensures
        forall|k: int| 0 <= k < para_links(links, rels, loc).len()
            ==> rel_target(rels, (#[trigger] para_links(links, rels, loc)[k]).target),
    decreases links.len(),
{
    if links.len() > 0 {
        lemma_para_links_targets(links.drop_last(), rels, loc);
        lemma_lookup_target(rels, links.last().0);
        let rest = para_links(links.drop_last(), rels, loc);
        let all = para_links(links, rels, loc);
        assert forall|k: int| 0 <= k < all.len() implies rel_target(rels, (#[trigger] all[k]).target) by {
            if k < rest.len() {
                assert(all[k] == rest[k]);
            }
        }
    }
}

proof fn lemma_trimmed_block(s: Seq<char>)
    requires
        trim(s).len() > 0,
    ensures
        trim(trim(s)) == trim(s),
        clean_text(trim(s)),
{
    crate::text::lemma_trim_clean(s);
    crate::text::lemma_clean_trim(trim(s));
}

proof fn lemma_end_clean(st: DocView, n: Seq<u8>, styles: Seq<(Seq<char>, Seq<char>)>, rels: Seq<(Seq<char>, Seq<char>)>)
    requires
        doc_clean(st, rels),
    ensures
        end_step(st, n, styles, rels) matches Ok(s) ==> doc_clean(s, rels),
{
    if end_is(n, "p"@) {
        match st.para {
            Some(f) => {
                let st2 = DocView { para: None, ..st };
                if !st.in_table {
                    let text = trim(f.text);
                    if text.len() > 0 {
                        lemma_trimmed_block(f.text);
                        let loc = LocationView::Docx { paragraph: f.number, table: None, row: None };
                        lemma_para_links_targets(f.links, rels, loc);
                        let s = finish_para(f, styles, rels, st2);
                        assert forall|k: int| 0 <= k < s.blocks.len() implies docx_block(#[trigger] s.blocks[k]) by {
                            if k < st.blocks.len() {
                                assert(s.blocks[k] == st.blocks[k]);
                            }
                        }
                        let pl = para_links(f.links, rels, loc);
                        assert forall|k: int| 0 <= k < s.links.len() implies rel_target(rels, (#[trigger] s.links[k]).target) by {
                            if k < st.links.len() {
                                assert(s.links[k] == st.links[k]);
                            } else {
                                assert(s.links[k] == pl[k - st.links.len()]);
                            }
                        }
                    }
                }
            },
            None => {},
        }
    } else if end_is(n, "tc"@) {
        let value = trim(st.cell);
        if value.len() > 0 {
            lemma_trimmed_block(st.cell);
            let s = DocView { cells: st.cells.push(value), ..st };
            assert forall|k: int| 0 <= k < s.cells.len() implies clean_text(#[trigger] s.cells[k]) by {
                if k < st.cells.len() {
                    assert(s.cells[k] == st.cells[k]);
                }
            }
        }
    } else if end_is(n, "tr"@) {
        let text = join(st.cells, " | "@);
        crate::text::lemma_join_clean(st.cells, " | "@);
        if text.len() > 0 {
            crate::text::lemma_clean_trim(text);
            let s = end_step(st, n, styles, rels)->Ok_0;
            assert forall|k: int| 0 <= k < s.blocks.len() implies docx_block(#[trigger] s.blocks[k]) by {
                if k < st.blocks.len() {
                    assert(s.blocks[k] == st.blocks[k]);
                }
            }
        }
    }
}

proof fn lemma_document_clean(
    events: Seq<XmlEvent>,
    i: int,
    st: DocView,
    styles: Seq<(Seq<char>, Seq<char>)>,
    rels: Seq<(Seq<char>, Seq<char>)>,
)
    requires
        doc_clean(st, rels),
    ensures
        document_from(events, i, st, styles, rels) matches Ok((blocks, links)) ==> (
            (forall|k: int| 0 <= k < blocks.len() ==> docx_block(#[trigger] blocks[k]))
            && (forall|k: int| 0 <= k < links.len() ==> rel_target(rels, (#[trigger] links[k]).target))),
    decreases events.len() - i,
{
    if 0 <= i < events.len() {
        match events[i] {
            XmlEvent::Start(e) => {
                if let Ok(s) = start_step(st, e) {
                    assert(doc_clean(s, rels));
                    lemma_document_clean(events, i + 1, s, styles, rels);
                }
            },
            XmlEvent::Empty(e) => {
                if let Ok(s) = empty_step(st, e) {
                    assert(doc_clean(s, rels));
                    lemma_document_clean(events, i + 1, s, styles, rels);
                }
            },
            XmlEvent::Text(t) => {
                if st.in_text {
                    if let Ok(v) = t {
                        lemma_document_clean(events, i + 1, DocView { para: append_para(st.para, v@), ..st }, styles, rels);
                    }
                } else {
                    lemma_document_clean(events, i + 1, st, styles, rels);
                }
            },
            XmlEvent::End(n) => {
                lemma_end_clean(st, n@, styles, rels);
                if let Ok(s) = end_step(st, n@, styles, rels) {
                    lemma_document_clean(events, i + 1, s, styles, rels);
                }
            },
            XmlEvent::Other => {
                lemma_document_clean(events, i + 1, st, styles, rels);
            },
            _ => {},
        }
    }
}

/// Every block the DOCX body reader gives has nonblank trimmed text, no
/// line, a DOCX location, and a heading only equal to its text; every link
/// it gives points at a target that a hyperlink relationship names.
pub proof fn docx_blocks_are_clean(
    events: Seq<XmlEvent>,
    styles: Seq<(Seq<char>, Seq<char>)>,
    rels: Seq<(Seq<char>, Seq<char>)>,
)
    ensures
        document_from(events, 0, doc_init(), styles, rels) matches Ok((blocks, links)) ==> (
            (forall|k: int| 0 <= k < blocks.len() ==> docx_block(#[trigger] blocks[k]))
            && (forall|k: int| 0 <= k < links.len() ==> rel_target(rels, (#[trigger] links[k]).target))),
{
    lemma_document_clean(events, 0, doc_init(), styles, rels);
}

/// An open paragraph.
pub struct Paragraph {
    pub number: u64,
    pub style: Option<String>,
    pub text: Vec<char>,
    pub links: Vec<(Vec<char>, Vec<char>)>,
    pub active: Option<(Vec<char>, Vec<char>)>,
}

pub open spec fn cpairs(v: Seq<(Vec<char>, Vec<char>)>) -> Seq<(Seq<char>, Seq<char>)> {
    v.map_values(|p: (Vec<char>, Vec<char>)| (p.0@, p.1@))
}

pub open spec fn para_view(p: Paragraph) -> ParaView {
    ParaView {
        number: p.number,
        style: opt_view(p.style),
        text: p.text@,
        links: cpairs(p.links@),
        active: match p.active {
            Some((a, b)) => Some((a@, b@)),
            None => None,
        },
    }
}

pub open spec fn opt_para(p: Option<Paragraph>) -> Option<ParaView> {
    match p {
        Some(p) => Some(para_view(p)),
        None => None,
    }
}

/// The reader state of `word/document.xml`.
pub struct DocState {
    pub blocks: Vec<ExtractedBlock>,
    pub links: Vec<ExtractedLink>,
    pub pcount: u64,
    pub para: Option<Paragraph>,
    pub in_text: bool,
    pub tcount: u64,
    pub rcount: u64,
    pub in_table: bool,
    pub row_first: Option<u64>,
    pub cell: Vec<char>,
    pub cells: Vec<Vec<char>>,
}

pub open spec fn doc_view(s: DocState) -> DocView {
    DocView {
        blocks: block_views(s.blocks@),
        links: link_views(s.links@),
        pcount: s.pcount,
        para: opt_para(s.para),
        in_text: s.in_text,
        tcount: s.tcount,
        rcount: s.rcount,
        in_table: s.in_table,
        row_first: s.row_first,
        cell: s.cell@,
        cells: vviews(s.cells@),
    }
}

fn append_para_exec(p: &mut Option<Paragraph>, v: &[char])
    ensures
        opt_para(*final(p)) == append_para(opt_para(*old(p)), v@),
{
    match p {
        Some(para) => {
            append_chars(&mut para.text, v);
            match &mut para.active {
                Some((_, label)) => {
                    append_chars(label, v);
                },
                None => {},
            }
        },
        None => {},
    }
}

fn single_char(c: char) -> (v: Vec<char>)
    ensures
        v@ == seq![c],
{
    let mut v: Vec<char> = Vec::new();
    v.push(c);
    proof {
        assert(v@ =~= seq![c]);
    }
    v
}

fn append_text_state(st: &mut DocState, v: &[char])
    ensures
        doc_view(*final(st)) == (DocView { para: append_para(doc_view(*old(st)).para, v@), ..doc_view(*old(st)) }),
{
    append_para_exec(&mut st.para, v);
}

fn style_exec(st: &mut DocState, e: &XmlElement) -> (r: Result<(), String>)
    ensures
        match style_step(doc_view(*old(st)), *e) {
            Ok(s) => r is Ok && doc_view(*final(st)) == s,
            Err(m) => r is Err && r->Err_0@ == m,
        },
{
    match attribute(e, "val", "DOCX")? {
        Some(v) => {
            match &mut st.para {
                Some(p) => {
                    p.style = Some(v);
                },
                None => {},
            }
        },
        None => {},
    }
    Ok(())
}

fn start_exec(st: &mut DocState, e: &XmlElement) -> (r: Result<(), String>)
    requires
        old(st).pcount < u64::MAX,
        old(st).tcount < u64::MAX,
        old(st).rcount < u64::MAX,
    ensures
        match start_step(doc_view(*old(st)), *e) {
            Ok(s) => r is Ok && doc_view(*final(st)) == s,
            Err(m) => r is Err && r->Err_0@ == m,
        },
{
    if is_named(e, "tbl") {
        st.tcount = st.tcount + 1;
        st.rcount = 0;
        st.in_table = true;
    } else if is_named(e, "tr") {
        st.rcount = st.rcount + 1;
        st.row_first = None;
        st.cells = Vec::new();
        proof {
            assert(vviews(st.cells@) =~= Seq::<Seq<char>>::empty());
        }
    } else if is_named(e, "tc") {
        st.cell = Vec::new();
    } else if is_named(e, "p") {
        st.pcount = st.pcount + 1;
        if st.row_first.is_none() {
            st.row_first = Some(st.pcount);
        }
        st.para = Some(Paragraph { number: st.pcount, style: None, text: Vec::new(), links: Vec::new(), active: None });
        proof {
            assert(cpairs(Seq::<(Vec<char>, Vec<char>)>::empty()) =~= Seq::<(Seq<char>, Seq<char>)>::empty());
        }
    } else if is_named(e, "pStyle") {
        return style_exec(st, e);
    } else if is_named(e, "hyperlink") {
        match attribute(e, "id", "DOCX")? {
            Some(id) => {
                match &mut st.para {
                    Some(p) => {
                        p.active = Some((chars_of(id.as_str()), Vec::new()));
                    },
                    None => {},
                }
            },
            None => {},
        }
    } else if is_named(e, "t") {
        st.in_text = true;
    } else if is_named(e, "tab") {
        let tab = single_char('\t');
        append_text_state(st, tab.as_slice());
    } else if is_named(e, "br") {
        let br = single_char('\n');
        append_text_state(st, br.as_slice());
    }
    Ok(())
}

fn empty_exec(st: &mut DocState, e: &XmlElement) -> (r: Result<(), String>)
    ensures
        match empty_step(doc_view(*old(st)), *e) {
            Ok(s) => r is Ok && doc_view(*final(st)) == s,
            Err(m) => r is Err && r->Err_0@ == m,
        },
{
    if is_named(e, "pStyle") {
        return style_exec(st, e);
    } else if is_named(e, "tab") {
        let tab = single_char('\t');
        append_text_state(st, tab.as_slice());
    } else if is_named(e, "br") {
        let br = single_char('\n');
        append_text_state(st, br.as_slice());
    }
    Ok(())
}

fn heading_style_exec(style: &Option<String>, styles: &Vec<(String, String)>) -> (b: bool)
    ensures
        b == heading_style(opt_view(*style), pair_views(styles@)),
{
    match style {
        None => false,
        Some(s) => {
            let heading = chars_of("heading");
            let sc = chars_of(s.as_str());
            let lower = to_ascii_lower(sc.as_slice());
            if starts_with_exec(lower.as_slice(), heading.as_slice()) {
                return true;
            }
            match lookup_pair(styles, sc.as_slice()) {
                Some(n) => {
                    let ln = to_ascii_lower(n.as_slice());
                    starts_with_exec(ln.as_slice(), heading.as_slice())
                },
                None => false,
            }
        },
    }
}

fn para_links_exec(links: &Vec<(Vec<char>, Vec<char>)>, rels: &Vec<(String, String)>, number: u64, out: &mut Vec<ExtractedLink>)
    ensures
        link_views(final(out)@) == link_views(old(out)@) + para_links(
            cpairs(links@),
            pair_views(rels@),
            LocationView::Docx { paragraph: number, table: None, row: None },
        ),
{
    let ghost base = link_views(out@);
    let ghost loc = LocationView::Docx { paragraph: number, table: None, row: None };
    let mut i: usize = 0;
    proof {
        assert(cpairs(links@).take(0) =~= Seq::<(Seq<char>, Seq<char>)>::empty());
        assert(link_views(out@) =~= base + Seq::<LinkView>::empty());
    }
    while i < links.len()
        invariant
            i <= links@.len(),
            loc == (LocationView::Docx { paragraph: number, table: None, row: None }),
            link_views(out@) == base + para_links(cpairs(links@).take(i as int), pair_views(rels@), loc),
        decreases links@.len() - i,
    {
        let (id, label) = &links[i];
        proof {
            assert(cpairs(links@).take(i + 1).drop_last() =~= cpairs(links@).take(i as int));
            assert(cpairs(links@).take(i + 1).last() == (id@, label@));
        }
        match lookup_pair(rels, id.as_slice()) {
            Some(target) => {
                let l = trimmed(label.as_slice());
                let link = ExtractedLink {
                    text: if l.len() == 0 { None } else { Some(string_of(l.as_slice())) },
                    target: string_of(target.as_slice()),
                    location: Some(SourceLocation::Docx { paragraph: number, table: None, row: None }),
                };
                let ghost before = out@;
                out.push(link);
                proof {
                    assert(link_views(out@) =~= link_views(before).push(link_view(link)));
                }
            },
            None => {},
        }
        i = i + 1;
    }
    proof {
        assert(cpairs(links@).take(links@.len() as int) =~= cpairs(links@));
    }
}

fn finish_para_exec(p: Paragraph, styles: &Vec<(String, String)>, rels: &Vec<(String, String)>, st: &mut DocState)
    ensures
        doc_view(*final(st)) == finish_para(para_view(p), pair_views(styles@), pair_views(rels@), doc_view(*old(st))),
{
    let text = trimmed(p.text.as_slice());
    if text.len() == 0 {
        return;
    }
    let heading = heading_style_exec(&p.style, styles);
    para_links_exec(&p.links, rels, p.number, &mut st.links);
    let block = ExtractedBlock {
        heading: if heading { Some(string_of(text.as_slice())) } else { None },
        text: string_of(text.as_slice()),
        line_start: None,
        location: Some(SourceLocation::Docx { paragraph: p.number, table: None, row: None }),
    };
    let ghost before = st.blocks@;
    st.blocks.push(block);
    proof {
        assert(block_views(st.blocks@) =~= block_views(before).push(block_view(block)));
    }
}

fn end_exec(st: &mut DocState, n: &Vec<u8>, styles: &Vec<(String, String)>, rels: &Vec<(String, String)>) -> (r: Result<(), String>)
    ensures
        match end_step(doc_view(*old(st)), n@, pair_views(styles@), pair_views(rels@)) {
            Ok(s) => r is Ok && doc_view(*final(st)) == s,
            Err(m) => r is Err && r->Err_0@ == m,
        },
{
    if end_named(n, "t") {
        st.in_text = false;
    } else if end_named(n, "hyperlink") {
        match &mut st.para {
            Some(p) => {
                match p.active.take() {
                    Some(l) => {
                        let ghost before = p.links@;
                        p.links.push(l);
                        proof {
                            assert(cpairs(p.links@) =~= cpairs(before).push((l.0@, l.1@)));
                        }
                    },
                    None => {},
                }
            },
            None => {},
        }
    } else if end_named(n, "p") {
        match st.para.take() {
            None => {
                return Err(String::from_str("DOCX paragraph end has no matching start."));
            },
            Some(f) => {
                if st.in_table {
                    if st.cell.len() > 0 && f.text.len() > 0 {
                        st.cell.push('\n');
                    }
                    append_chars(&mut st.cell, f.text.as_slice());
                } else {
                    finish_para_exec(f, styles, rels, st);
                }
            },
        }
    } else if end_named(n, "tc") {
        let value = trimmed(st.cell.as_slice());
        if value.len() > 0 {
            let ghost before = st.cells@;
            st.cells.push(value);
            proof {
                assert(vviews(st.cells@) =~= vviews(before).push(value@));
            }
        }
    } else if end_named(n, "tr") {
        let sep = chars_of(" | ");
        let text = crate::text::join_chars(&st.cells, sep.as_slice());
        if text.len() > 0 {
            let paragraph = match st.row_first {
                Some(r) => r,
                None => st.pcount,
            };
            let block = ExtractedBlock {
                heading: None,
                text: string_of(text.as_slice()),
                line_start: None,
                location: Some(SourceLocation::Docx { paragraph, table: Some(st.tcount), row: Some(st.rcount) }),
            };
            let ghost before = st.blocks@;
            st.blocks.push(block);
            proof {
                assert(block_views(st.blocks@) =~= block_views(before).push(block_view(block)));
            }
        }
    } else if end_named(n, "tbl") {
        st.in_table = false;
    }
    Ok(())
}

pub open spec fn document_result(r: Result<(Vec<ExtractedBlock>, Vec<ExtractedLink>), String>) -> Result<(Seq<BlockView>, Seq<LinkView>), Seq<char>> {
    match r {
        Ok((b, l)) => Ok((block_views(b@), link_views(l@))),
        Err(m) => Err(m@),
    }
}

/// The blocks and links of a DOCX body (see `document_from`).
pub fn parse_document(events: &Vec<XmlEvent>, styles: &Vec<(String, String)>, relationships: &Vec<(String, String)>) -> (r: Result<(Vec<ExtractedBlock>, Vec<ExtractedLink>), String>)
    ensures
        document_result(r) == document_from(events@, 0, doc_init(), pair_views(styles@), pair_views(relationships@)),
{
    let mut st = DocState {
        blocks: Vec::new(),
        links: Vec::new(),
        pcount: 0,
        para: None,
        in_text: false,
        tcount: 0,
        rcount: 0,
        in_table: false,
        row_first: None,
        cell: Vec::new(),
        cells: Vec::new(),
    };
    proof {
        assert(block_views(st.blocks@) =~= Seq::<BlockView>::empty());
        assert(link_views(st.links@) =~= Seq::<LinkView>::empty());
        assert(st.cell@ =~= Seq::<char>::empty());
        assert(vviews(st.cells@) =~= Seq::<Seq<char>>::empty());
        assert(doc_view(st) =~= doc_init());
    }
    let n = events.len();
    let mut i: usize = 0;
    while i < events.len()
        invariant
            i <= events@.len(),
            n == events@.len(),
            st.pcount <= i,
            st.tcount <= i,
            st.rcount <= i,
            document_from(events@, 0, doc_init(), pair_views(styles@), pair_views(relationships@))
                == document_from(events@, i as int, doc_view(st), pair_views(styles@), pair_views(relationships@)),
        decreases events@.len() - i,
    {
        match &events[i] {
            XmlEvent::Start(e) => {
                start_exec(&mut st, e)?;
            },
            XmlEvent::Empty(e) => {
                empty_exec(&mut st, e)?;
            },
            XmlEvent::Text(t) => {
                if st.in_text {
                    match t {
                        Ok(v) => {
                            let c = chars_of(v.as_str());
                            append_text_state(&mut st, c.as_slice());
                        },
                        Err(m) => {
                            return Err(prefixed("Cannot decode DOCX text: ", m.as_str()));
                        },
                    }
                }
            },
            XmlEvent::End(name) => {
                end_exec(&mut st, name, styles, relationships)?;
            },
            XmlEvent::Eof => {
                return Ok((st.blocks, st.links));
            },
            XmlEvent::Error(m) => {
                return Err(prefixed("Cannot parse DOCX document XML: ", m.as_str()));
            },
            XmlEvent::Stalled => {
                return Err(prefixed("Cannot parse DOCX document XML: ", "the XML reader stopped advancing within its input"));
            },
            XmlEvent::Other => {},
        }
        i = i + 1;
    }
    Ok((st.blocks, st.links))
}

/// The content a DOCX package's entries give: styles and hyperlink
/// relationships are read when present (a malformed one is an error), the
/// title is read when present and readable, the body `word/document.xml`
/// must be present and parse, and a body without readable paragraphs or
/// tables is an error.
pub open spec fn docx_from(entries: Seq<(Seq<char>, Seq<u8>)>) -> Result<(Option<Seq<char>>, Seq<LinkView>, Seq<BlockView>), Seq<char>> {
    let title = match named_entry(entries, "docProps/core.xml"@) {
        Some(x) => match title_from(xml_events(x, false), 0, false) {
            Ok(t) => t,
            Err(_) => None,
        },
        None => None,
    };
    let styles = match named_entry(entries, "word/styles.xml"@) {
        Some(x) => styles_from(xml_events(x, false), 0, None, Seq::empty()),
        None => Ok(Seq::empty()),
    };
    let rels = match named_entry(entries, "word/_rels/document.xml.rels"@) {
        Some(x) => relationships_from(xml_events(x, false), 0, Seq::empty()),
        None => Ok(Seq::empty()),
    };
    match styles {
        Err(e) => Err(e),
        Ok(st) => match rels {
            Err(e) => Err(e),
            Ok(rl) => match named_entry(entries, "word/document.xml"@) {
                None => Err("DOCX"@ + " archive is missing "@ + "word/document.xml"@ + "."@),
                Some(x) => match document_from(xml_events(x, false), 0, doc_init(), st, rl) {
                    Err(e) => Err(e),
                    Ok((blocks, links)) => if blocks.len() == 0 {
                        Err("DOCX does not contain readable paragraphs or tables."@)
                    } else {
                        Ok((title, links, blocks))
                    },
                },
            },
        },
    }
}

/// The view of a structured source's content.
pub open spec fn content_result(r: Result<(Option<String>, Vec<ExtractedLink>, Vec<ExtractedBlock>), String>) -> Result<(Option<Seq<char>>, Seq<LinkView>, Seq<BlockView>), Seq<char>> {
    match r {
        Ok((t, l, b)) => Ok((opt_view(t), link_views(l@), block_views(b@))),
        Err(w) => Err(w@),
    }
}

/// What the archive's outcome gives: its error, or the content of its entries.
pub open spec fn docx_outcome(a: Result<Seq<(Seq<char>, Seq<u8>)>, Seq<char>>) -> Result<(Option<Seq<char>>, Seq<LinkView>, Seq<BlockView>), Seq<char>> {
    match a {
        Err(e) => Err(e),
        Ok(entries) => docx_from(entries),
    }
}

/// The title, links and blocks of a DOCX package: the archive must open and
/// its entries give the content (see `docx_from`).
pub fn docx_content(bytes: Vec<u8>) -> (r: Result<(Option<String>, Vec<ExtractedLink>, Vec<ExtractedBlock>), String>)
    ensures
        exists|a: Result<Seq<(Seq<char>, Seq<u8>)>, Seq<char>>|
            #![trigger crate::archive::archive_opens(bytes@, "DOCX"@, a)]
            crate::archive::archive_opens(bytes@, "DOCX"@, a) && content_result(r) == docx_outcome(a),
        r matches Ok((_, _, blocks)) ==> blocks@.len() > 0,
{
    let ghost input = bytes@;
    let opened = crate::archive::BoundedArchive::open(bytes, "DOCX");
    let ghost a = match &opened {
        Ok(x) => Ok(x@),
        Err(e) => Err(e@),
    };
    assert(crate::archive::archive_opens(input, "DOCX"@, a));
    let archive = match opened {
        Ok(x) => x,
        Err(e) => {
            return Err(e);
        },
    };
    let ghost entries = archive@;
    let title = match archive.required("docProps/core.xml", "DOCX") {
        Ok(xml) => match parse_title(&read_events(xml.as_slice(), false)) {
            Ok(t) => t,
            Err(_) => None,
        },
        Err(_) => None,
    };
    let styles = match archive.required("word/styles.xml", "DOCX") {
        Ok(xml) => {
            let events = read_events(xml.as_slice(), false);
            match parse_styles(&events) {
                Ok(v) => v,
                Err(e) => {
                    assert(docx_from(entries) == Err::<(Option<Seq<char>>, Seq<LinkView>, Seq<BlockView>), Seq<char>>(e@));
                    return Err(e);
                },
            }
        },
        Err(_) => {
            let v: Vec<(String, String)> = Vec::new();
            assert(pair_views(v@) =~= Seq::<(Seq<char>, Seq<char>)>::empty());
            v
        },
    };
    let ghost st = pair_views(styles@);
    assert((match named_entry(entries, "word/styles.xml"@) {
        Some(x) => styles_from(xml_events(x, false), 0, None, Seq::empty()),
        None => Ok(Seq::empty()),
    }) == Ok::<Seq<(Seq<char>, Seq<char>)>, Seq<char>>(st));
    let relationships = match archive.required("word/_rels/document.xml.rels", "DOCX") {
        Ok(xml) => {
            let events = read_events(xml.as_slice(), false);
            match parse_relationships(&events) {
                Ok(v) => v,
                Err(e) => {
                    assert(docx_from(entries) == Err::<(Option<Seq<char>>, Seq<LinkView>, Seq<BlockView>), Seq<char>>(e@));
                    return Err(e);
                },
            }
        },
        Err(_) => {
            let v: Vec<(String, String)> = Vec::new();
            assert(pair_views(v@) =~= Seq::<(Seq<char>, Seq<char>)>::empty());
            v
        },
    };
    let ghost rl = pair_views(relationships@);
    assert((match named_entry(entries, "word/_rels/document.xml.rels"@) {
        Some(x) => relationships_from(xml_events(x, false), 0, Seq::empty()),
        None => Ok(Seq::empty()),
    }) == Ok::<Seq<(Seq<char>, Seq<char>)>, Seq<char>>(rl));
    let body = match archive.required("word/document.xml", "DOCX") {
        Ok(x) => x,
        Err(e) => {
            return Err(e);
        },
    };
    let events = read_events(body.as_slice(), false);
    let ghost doc = document_from(events@, 0, doc_init(), st, rl);
    assert(named_entry(entries, "word/document.xml"@) == Some(body@));
    let (blocks, links) = match parse_document(&events, &styles, &relationships) {
        Ok(v) => v,
        Err(e) => {
            assert(doc == Err::<(Seq<BlockView>, Seq<LinkView>), Seq<char>>(e@));
            assert(docx_from(entries) == Err::<(Option<Seq<char>>, Seq<LinkView>, Seq<BlockView>), Seq<char>>(e@));
            return Err(e);
        },
    };
    assert(doc == Ok::<(Seq<BlockView>, Seq<LinkView>), Seq<char>>((block_views(blocks@), link_views(links@))));
    if blocks.len() == 0 {
        return Err("DOCX does not contain readable paragraphs or tables.".to_owned());
    }
    Ok((title, links, blocks))
}

/// The document of a DOCX file's bytes: its content, or metadata only with
/// the reason it could not be read (see `docx_content`).
pub fn extract(bytes: Vec<u8>) -> (d: ExtractedDocument)
    ensures
        d.extractor_id@ == "builtin-docx"@,
        d.status == ExtractionStatus::TextReady ==> d.blocks@.len() > 0,
        exists|a: Result<Seq<(Seq<char>, Seq<u8>)>, Seq<char>>|
            #![trigger crate::archive::archive_opens(bytes@, "DOCX"@, a)]
            crate::archive::archive_opens(bytes@, "DOCX"@, a) && document_view(d) == structured_document(
                "builtin-docx"@,
                docx_outcome(a),
            ),
{
    let r = docx_content(bytes);
    let ghost rv = content_result(r);
    let d = crate::extract::structured("builtin-docx", r);
    proof {
        assert(block_views(d.blocks@).len() == d.blocks@.len());
    }
    d
}

} // verus!
