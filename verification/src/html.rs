//! HTML sources: title, links and the text blocks of the rendered page.
use vstd::prelude::*;
use vstd::utf8::{decode_utf8, valid_utf8};
use scraper::{ElementRef, Html, Selector};
use crate::docx::{link_view, link_views, ExtractedLink, LinkView};
use crate::extract::{
    located, place, relocate, block_views, document_view, markdown_blocks, metadata_only, spec_markdown_blocks, BlockView,
    DocumentView, ExtractedBlock, ExtractedDocument, ExtractionStatus, LocationView, SourceLocation,
};
use crate::text::{
    append_chars, chars_of, join, join_chars, split_whitespace, string_of, trim, trimmed, views, vviews, words,
};

verus! {

#[verifier::external_type_specification]
#[verifier::external_body]
pub struct ExHtml(Html);

#[verifier::external_type_specification]
#[verifier::external_body]
pub struct ExSelector(Selector);

#[verifier::external_type_specification]
#[verifier::external_body]
pub struct ExElementRef<'a>(ElementRef<'a>);

/// `scraper::Html::parse_document`.
#[verifier::external_body]
fn parse_dom(source: &str) -> Html {
    Html::parse_document(source)
}

/// `scraper::Selector::parse`; `None` when the selector does not parse.
#[verifier::external_body]
fn selector(css: &str) -> Option<Selector> {
    Selector::parse(css).ok()
}

/// `scraper::Html::select`: the matching elements in document order.
#[verifier::external_body]
fn select_all<'a>(dom: &'a Html, selector: &Selector) -> Vec<ElementRef<'a>> {
    dom.select(selector).collect()
}

/// `scraper::ElementRef::text`: the element's text nodes in order.
#[verifier::external_body]
fn text_pieces<'a>(element: &ElementRef<'a>) -> Vec<String> {
    element.text().map(|piece| piece.to_owned()).collect()
}

/// `scraper::ElementRef::attr`.
#[verifier::external_body]
fn attribute_of<'a>(element: &ElementRef<'a>, name: &str) -> Option<String> {
    element.attr(name).map(|value| value.to_owned())
}

/// The plain-text rendering of an HTML page at a line width, or the renderer's message.
pub uninterp spec fn html_rendered(source: Seq<u8>, width: usize) -> Result<Seq<char>, Seq<char>>;

/// `html2text::from_read` over the page's bytes.
#[verifier::external_body]
fn render(source: &[u8], width: usize) -> (r: Result<String, String>)
    ensures
        match r {
            Ok(t) => html_rendered(source@, width) == Ok::<Seq<char>, Seq<char>>(t@),
            Err(e) => html_rendered(source@, width) == Err::<Seq<char>, Seq<char>>(e@),
        },
{
    html2text::from_read(source, width).map_err(|error| error.to_string())
}

/// The width the page is rendered at.
pub const RENDER_WIDTH: usize = 120;

/// Every whitespace-separated word of the pieces, in order.
pub open spec fn all_words(pieces: Seq<Seq<char>>) -> Seq<Seq<char>>
    decreases pieces.len(),
{
    if pieces.len() == 0 {
        Seq::empty()
    } else {
        all_words(pieces.drop_last()) + words(pieces.last())
    }
}

/// The words of the pieces joined by single spaces.
pub open spec fn normalized_text(pieces: Seq<Seq<char>>) -> Seq<char> {
    join(all_words(pieces), " "@)
}

fn normalize_pieces(pieces: &Vec<String>) -> (out: Vec<char>)
    ensures
        out@ == normalized_text(views(pieces@)),
{
    let mut all: Vec<Vec<char>> = Vec::new();
    let mut i: usize = 0;
    proof {
        assert(views(pieces@).take(0) =~= Seq::<Seq<char>>::empty());
        assert(vviews(all@) =~= Seq::<Seq<char>>::empty());
    }
    while i < pieces.len()
        invariant
            i <= pieces@.len(),
            vviews(all@) == all_words(views(pieces@).take(i as int)),
        decreases pieces@.len() - i,
    {
        proof {
            assert(views(pieces@).take(i + 1).drop_last() =~= views(pieces@).take(i as int));
            assert(views(pieces@).take(i + 1).last() == pieces@[i as int]@);
        }
        let w = split_whitespace(chars_of(pieces[i].as_str()).as_slice());
        let mut w = w;
        let ghost before = vviews(all@);
        let ghost added = vviews(w@);
        all.append(&mut w);
        proof {
            assert(vviews(all@) =~= before + added);
        }
        i = i + 1;
    }
    proof {
        assert(views(pieces@).take(pieces@.len() as int) =~= views(pieces@));
    }
    join_chars(&all, chars_of(" ").as_slice())
}

/// The links of the page's anchors: each with an `href` that is not blank,
/// its trimmed target and its normalized text when it has any.
pub open spec fn anchor_links(anchors: Seq<(Option<Seq<char>>, Seq<Seq<char>>)>) -> Seq<LinkView>
    decreases anchors.len(),
{
    if anchors.len() == 0 {
        Seq::empty()
    } else {
        let rest = anchor_links(anchors.drop_last());
        let (href, pieces) = anchors.last();
        match href {
            None => rest,
            Some(h) => if trim(h).len() == 0 {
                rest
            } else {
                let t = normalized_text(pieces);
                rest.push(LinkView { text: if t.len() > 0 { Some(t) } else { None }, target: trim(h), location: None })
            },
        }
    }
}

/// The title, links and blocks of a page.
pub struct HtmlContent {
    pub title: Option<String>,
    pub links: Vec<ExtractedLink>,
    pub sections: Vec<ExtractedBlock>,
}

pub open spec fn anchor_views(a: Seq<(Option<String>, Vec<String>)>) -> Seq<(Option<Seq<char>>, Seq<Seq<char>>)> {
    a.map_values(|x: (Option<String>, Vec<String>)| (crate::extract::opt_view(x.0), views(x.1@)))
}

/// A page's content from the text pieces of its first `title` element, the
/// `href` and text pieces of each `a[href]` element, and its rendering: the
/// title is the normalized title text when not empty; the blocks are the
/// Markdown blocks of the trimmed rendering; a failed rendering is an error.
pub open spec fn content_of(
    title: Option<Seq<Seq<char>>>,
    anchors: Seq<(Option<Seq<char>>, Seq<Seq<char>>)>,
    rendered: Result<Seq<char>, Seq<char>>,
) -> Result<(Option<Seq<char>>, Seq<LinkView>, Seq<BlockView>), Seq<char>> {
    match rendered {
        Err(e) => Err("Cannot render HTML: "@ + e),
        Ok(r) => Ok((
            match title {
                Some(p) => if normalized_text(p).len() > 0 { Some(normalized_text(p)) } else { None },
                None => None,
            },
            anchor_links(anchors),
            spec_markdown_blocks(trim(r)),
        )),
    }
}

pub open spec fn content_view(r: Result<HtmlContent, String>) -> Result<(Option<Seq<char>>, Seq<LinkView>, Seq<BlockView>), Seq<char>> {
    match r {
        Ok(c) => Ok((crate::extract::opt_view(c.title), link_views(c.links@), block_views(c.sections@))),
        Err(e) => Err(e@),
    }
}

fn anchor_links_exec(anchors: &Vec<(Option<String>, Vec<String>)>) -> (links: Vec<ExtractedLink>)
    ensures
        link_views(links@) == anchor_links(anchor_views(anchors@)),
{
    let mut links: Vec<ExtractedLink> = Vec::new();
    let mut i: usize = 0;
    let ghost av = anchor_views(anchors@);
    proof {
        assert(av.take(0) =~= Seq::<(Option<Seq<char>>, Seq<Seq<char>>)>::empty());
        assert(link_views(links@) =~= Seq::<LinkView>::empty());
    }
    while i < anchors.len()
        invariant
            i <= anchors@.len(),
            av == anchor_views(anchors@),
            link_views(links@) == anchor_links(av.take(i as int)),
        decreases anchors@.len() - i,
    {
        proof {
            assert(av.take(i + 1).drop_last() =~= av.take(i as int));
            assert(av.take(i + 1).last() == av[i as int]);
        }
        let (href, pieces) = &anchors[i];
        match href {
            Some(h) => {
                let target = trimmed(chars_of(h.as_str()).as_slice());
                if target.len() > 0 {
                    let t = normalize_pieces(pieces);
                    let link = ExtractedLink {
                        text: if t.len() > 0 { Some(string_of(t.as_slice())) } else { None },
                        target: string_of(target.as_slice()),
                        location: None,
                    };
                    let ghost before = links@;
                    links.push(link);
                    proof {
                        assert(link_views(links@) =~= link_views(before).push(link_view(link)));
                    }
                }
            },
            None => {},
        }
        i = i + 1;
    }
    proof {
        assert(av.take(anchors@.len() as int) =~= av);
    }
    links
}

/// The content of a page from what the HTML parser and renderer report (see `content_of`).
pub fn html_content(
    title: Option<Vec<String>>,
    anchors: Vec<(Option<String>, Vec<String>)>,
    rendered: Result<String, String>,
) -> (r: Result<HtmlContent, String>)
    requires
        rendered matches Ok(t) ==> t@.len() < usize::MAX,
    ensures
        content_view(r) == content_of(
            match title {
                Some(p) => Some(views(p@)),
                None => None,
            },
            anchor_views(anchors@),
            match rendered {
                Ok(t) => Ok(t@),
                Err(e) => Err(e@),
            },
        ),
{
    let text = match rendered {
        Err(e) => {
            let mut m = chars_of("Cannot render HTML: ");
            append_chars(&mut m, chars_of(e.as_str()).as_slice());
            return Err(string_of(m.as_slice()));
        },
        Ok(t) => t,
    };
    let title_text = match &title {
        Some(p) => {
            let t = normalize_pieces(p);
            if t.len() > 0 { Some(string_of(t.as_slice())) } else { None }
        },
        None => None,
    };
    let links = anchor_links_exec(&anchors);
    let body = trimmed(chars_of(text.as_str()).as_slice());
    proof {
        crate::text::lemma_trim_len(text@);
    }
    let sections = markdown_blocks(string_of(body.as_slice()).as_str());
    Ok(HtmlContent { title: title_text, links, sections })
}

/// What parsing and rendering a page's bytes may give: UTF-8 is required;
/// a rendering that fails or that is too long to hold is an error; otherwise
/// the content is that of `content_of` for the rendering at `RENDER_WIDTH`
/// columns, with the HTML parser's first `title` element's text and its
/// `a[href]` elements (which are not stated here).
pub open spec fn html_parsed(bytes: Seq<u8>, r: Result<(Option<Seq<char>>, Seq<LinkView>, Seq<BlockView>), Seq<char>>) -> bool {
    if !valid_utf8(bytes) {
        r == Err::<(Option<Seq<char>>, Seq<LinkView>, Seq<BlockView>), Seq<char>>("Expected UTF-8 HTML input."@)
    } else {
        match html_rendered(bytes, RENDER_WIDTH) {
            Err(m) => r == Err::<(Option<Seq<char>>, Seq<LinkView>, Seq<BlockView>), Seq<char>>("Cannot render HTML: "@ + m),
            Ok(t) => if t.len() >= usize::MAX {
                r == Err::<(Option<Seq<char>>, Seq<LinkView>, Seq<BlockView>), Seq<char>>(
                    "Cannot render HTML: the rendering is too long."@,
                )
            } else {
                exists|title: Option<Seq<Seq<char>>>, anchors: Seq<(Option<Seq<char>>, Seq<Seq<char>>)>|
                    r == #[trigger] content_of(title, anchors, Ok(t))
            },
        }
    }
}

/// Parse and render a page's bytes (see `html_parsed`): the title is the
/// first `title` element's text, the links those of `a[href]` elements, the
/// blocks those of the rendering (see `html_content`).
pub fn parse(bytes: &[u8]) -> (r: Result<HtmlContent, String>)
    ensures
        html_parsed(bytes@, content_view(r)),
        (valid_utf8(bytes@) && (html_rendered(bytes@, RENDER_WIDTH) matches Ok(t) && t.len() < usize::MAX)) ==> r is Ok,
        valid_utf8(bytes@) ==> match html_rendered(bytes@, RENDER_WIDTH) {
            Err(m) => r matches Err(e) && e@ == "Cannot render HTML: "@ + m,
            Ok(t) => r matches Ok(c) ==> block_views(c.sections@) == spec_markdown_blocks(trim(t)),
        },
{
    let source = match crate::text::utf8_text(bytes) {
        Ok(s) => s,
        Err(_) => {
            return Err("Expected UTF-8 HTML input.".to_owned());
        },
    };
    let dom = parse_dom(source.as_str());
    let title = match selector("title") {
        Some(sel) => {
            let found = select_all(&dom, &sel);
            if found.len() > 0 {
                Some(text_pieces(&found[0]))
            } else {
                None
            }
        },
        None => None,
    };
    let mut anchors: Vec<(Option<String>, Vec<String>)> = Vec::new();
    match selector("a[href]") {
        Some(sel) => {
            let found = select_all(&dom, &sel);
            let mut i: usize = 0;
            while i < found.len()
                invariant
                    i <= found@.len(),
                decreases found@.len() - i,
            {
                anchors.push((attribute_of(&found[i], "href"), text_pieces(&found[i])));
                i = i + 1;
            }
        },
        None => {},
    }
    let rendered = render(bytes, RENDER_WIDTH);
    match &rendered {
        Ok(t) => {
            let n = chars_of(t.as_str()).len();
            if n == usize::MAX {
                return Err("Cannot render HTML: the rendering is too long.".to_owned());
            }
        },
        Err(_) => {},
    }
    html_content(title, anchors, rendered)
}

/// The document of a page's content: text-ready when it has blocks (each
/// located by its position), else metadata only with its title and links
/// and a warning; a page that cannot be read keeps only the warning.
pub open spec fn html_document(content: Result<(Option<Seq<char>>, Seq<LinkView>, Seq<BlockView>), Seq<char>>) -> DocumentView {
    match content {
        Ok((title, links, blocks)) => if blocks.len() > 0 {
            DocumentView {
                status: ExtractionStatus::TextReady,
                extractor_id: "builtin-html"@,
                extractor_version: "v1"@,
                title,
                links,
                blocks: located(blocks, |k: u64| place(None, k)),
                warnings: Seq::empty(),
            }
        } else {
            DocumentView {
                status: ExtractionStatus::MetadataOnly,
                extractor_id: "builtin-html"@,
                extractor_version: "v1"@,
                title,
                links,
                blocks: Seq::empty(),
                warnings: seq!["HTML does not contain visible text."@],
            }
        },
        Err(w) => metadata_only("builtin-html"@, ExtractionStatus::MetadataOnly, seq![w]),
    }
}

/// The document of a page's content (see `html_document`).
pub fn html_document_from(content: Result<HtmlContent, String>) -> (d: ExtractedDocument)
    ensures
        document_view(d) == html_document(content_view(content)),
{
    match content {
        Ok(c) => {
            if c.sections.len() > 0 {
                let ghost sections = c.sections@;
                let blocks = relocate(c.sections, None);
                let d = ExtractedDocument {
                    status: ExtractionStatus::TextReady,
                    extractor_id: "builtin-html".to_owned(),
                    extractor_version: "v1".to_owned(),
                    title: c.title,
                    links: c.links,
                    blocks,
                    warnings: Vec::new(),
                };
                proof {
                    assert(views(d.warnings@) =~= Seq::<Seq<char>>::empty());
                    assert(block_views(d.blocks@) =~= located(block_views(sections), |k: u64| place(None, k)));
                }
                d
            } else {
                let mut ws: Vec<String> = Vec::new();
                ws.push("HTML does not contain visible text.".to_owned());
                let d = ExtractedDocument {
                    status: ExtractionStatus::MetadataOnly,
                    extractor_id: "builtin-html".to_owned(),
                    extractor_version: "v1".to_owned(),
                    title: c.title,
                    links: c.links,
                    blocks: Vec::new(),
                    warnings: ws,
                };
                proof {
                    assert(views(d.warnings@) =~= seq!["HTML does not contain visible text."@]);
                    assert(block_views(d.blocks@) =~= Seq::<BlockView>::empty());
                }
                d
            }
        },
        Err(w) => crate::extract::structured("builtin-html", Err(w)),
    }
}

/// The document of an HTML file's bytes (see `parse` and `html_document_from`).
pub fn extract(bytes: &[u8]) -> (d: ExtractedDocument)
    ensures
        d.extractor_id@ == "builtin-html"@,
        exists|c: Result<(Option<Seq<char>>, Seq<LinkView>, Seq<BlockView>), Seq<char>>|
            #![trigger html_parsed(bytes@, c)]
            html_parsed(bytes@, c) && document_view(d) == html_document(c),
        !valid_utf8(bytes@) ==> document_view(d) == metadata_only(
            "builtin-html"@,
            ExtractionStatus::MetadataOnly,
            seq!["Expected UTF-8 HTML input."@],
        ),
{
    let c = parse(bytes);
    let ghost cv = content_view(c);
    let d = html_document_from(c);
    assert(html_parsed(bytes@, cv));
    d
}

} // verus!
