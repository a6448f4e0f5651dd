//! Text extraction: media classification, the built-in text extractor and the
//! Markdown block splitter shared by the HTML and EPUB extractors.

use vstd::prelude::*;
use vstd::utf8::{decode_utf8, length_of_first_scalar, pop_first_scalar, valid_utf8};
use crate::docx::{link_views, ExtractedLink, LinkView};
use crate::text::{
    chars_of, find_char, is_ws, lines, lines_of, slice_vec, string_of, trim, trim_end,
    trim_end_index, trim_start, trim_start_index, trimmed, vviews,
};

verus! {

/// Where a block was found inside a structured source.
#[derive(Debug, Clone, PartialEq, Eq)]
pub enum SourceLocation {
    Docx { paragraph: u64, table: Option<u64>, row: Option<u64> },
    Epub { resource: String, block: u64 },
    Html { block: u64 },
}

/// A location with its text as characters.
pub enum LocationView {
    Docx { paragraph: u64, table: Option<u64>, row: Option<u64> },
    Epub { resource: Seq<char>, block: u64 },
    Html { block: u64 },
}

pub open spec fn location_view(l: SourceLocation) -> LocationView {
    match l {
        SourceLocation::Docx { paragraph, table, row } => LocationView::Docx { paragraph, table, row },
        SourceLocation::Epub { resource, block } => LocationView::Epub { resource: resource@, block },
        SourceLocation::Html { block } => LocationView::Html { block },
    }
}

/// One extracted block of text.
#[derive(Debug, Clone)]
pub struct ExtractedBlock {
    pub heading: Option<String>,
    pub text: String,
    pub line_start: Option<u64>,
    pub location: Option<SourceLocation>,
}

/// A block with its text as characters.
pub struct BlockView {
    pub heading: Option<Seq<char>>,
    pub text: Seq<char>,
    pub line_start: Option<u64>,
    pub location: Option<LocationView>,
}

pub open spec fn opt_view(s: Option<String>) -> Option<Seq<char>> {
    match s {
        Some(v) => Some(v@),
        None => None,
    }
}

pub open spec fn block_view(b: ExtractedBlock) -> BlockView {
    BlockView {
        heading: opt_view(b.heading),
        text: b.text@,
        line_start: b.line_start,
        location: match b.location {
            Some(l) => Some(location_view(l)),
            None => None,
        },
    }
}

pub open spec fn block_views(v: Seq<ExtractedBlock>) -> Seq<BlockView> {
    v.map_values(|b: ExtractedBlock| block_view(b))
}

/// Number of leading copies of `c` in `s`.
pub open spec fn leading(s: Seq<char>, c: char) -> nat
    decreases s.len(),
{
    if s.len() > 0 && s[0] == c {
        1 + leading(s.drop_first(), c)
    } else {
        0
    }
}

proof fn lemma_leading(s: Seq<char>, c: char, k: int)
    requires
        0 <= k <= s.len(),
        forall|j: int| 0 <= j < k ==> s[j] == c,
        k == s.len() || s[k] != c,
    ensures
        leading(s, c) == k,
    decreases k,
{
    if k > 0 {
        assert forall|j: int| 0 <= j < k - 1 implies s.drop_first()[j] == c by {
            assert(s.drop_first()[j] == s[j + 1]);
        }
        lemma_leading(s.drop_first(), c, k - 1);
    }
}

fn count_leading(s: &[char], c: char) -> (n: usize)
    ensures
        n == leading(s@, c),
        n <= s@.len(),
{
    let mut k: usize = 0;
    while k < s.len() && s[k] == c
        invariant
            k <= s@.len(),
            forall|j: int| 0 <= j < k ==> s@[j] == c,
        decreases s@.len() - k,
    {
        k = k + 1;
    }
    proof {
        lemma_leading(s@, c, k as int);
    }
    k
}

/// `s` with every trailing `c` removed (`str::trim_end_matches` with a character).
pub open spec fn trim_end_char(s: Seq<char>, c: char) -> Seq<char>
    decreases s.len(),
{
    if s.len() > 0 && s.last() == c {
        trim_end_char(s.drop_last(), c)
    } else {
        s
    }
}

fn strip_end_char(s: &[char], c: char) -> (out: Vec<char>)
    ensures
        out@ == trim_end_char(s@, c),
{
    let mut k: usize = s.len();
    proof {
        assert(s@.take(s@.len() as int) =~= s@);
    }
    while k > 0 && s[k - 1] == c
        invariant
            k <= s@.len(),
            trim_end_char(s@.take(k as int), c) == trim_end_char(s@, c),
        decreases k,
    {
        proof {
            assert(s@.take(k as int).drop_last() =~= s@.take(k - 1));
        }
        k = k - 1;
    }
    slice_vec(s, 0, k)
}

/// An open code fence: its marker character and length.
pub type Fence = Option<(char, nat)>;

/// The fence state after a line whose leading whitespace is removed (`t`).
pub open spec fn fence_after(fence: Fence, t: Seq<char>) -> Fence {
    let marker = if t.len() > 0 { t[0] } else { ' ' };
    let count = leading(t, marker);
    if (marker == '`' || marker == '~') && count >= 3 {
        match fence {
            Some((open, n)) => if marker == open && count >= n && trim(t.skip(count as int)).len()
                == 0 {
                None
            } else {
                fence
            },
            None => Some((marker, count)),
        }
    } else {
        fence
    }
}

/// The heading text of an ATX heading line `t` (leading whitespace removed).
pub open spec fn atx_heading(t: Seq<char>) -> Option<Seq<char>> {
    let hashes = leading(t, '#');
    if 1 <= hashes <= 6 && hashes < t.len() && t[hashes as int] == ' ' {
        Some(trim(trim_end_char(trim(t.skip(hashes as int)), '#')))
    } else {
        None
    }
}

/// Splitter state: finished blocks, the block being filled, the open fence.
pub struct MdState {
    pub blocks: Seq<BlockView>,
    pub current: BlockView,
    pub fence: Fence,
}

pub open spec fn new_block(heading: Option<Seq<char>>, line: nat) -> BlockView {
    BlockView { heading, text: Seq::empty(), line_start: Some(line as u64), location: None }
}

/// The blocks with their final nonblank block added.
pub open spec fn close_blocks(blocks: Seq<BlockView>, current: BlockView) -> Seq<BlockView> {
    if trim(current.text).len() == 0 {
        blocks
    } else {
        blocks.push(current)
    }
}

/// Reading line number `index` (0-based) of a Markdown file.
pub open spec fn md_step(st: MdState, line: Seq<char>, index: nat) -> MdState {
    let t = trim_start(line);
    let fence = fence_after(st.fence, t);
    let (blocks, current) = match atx_heading(t) {
        Some(h) if fence is None => (
            close_blocks(st.blocks, st.current),
            new_block(Some(h), index + 1),
        ),
        _ => (st.blocks, st.current),
    };
    MdState {
        blocks,
        current: BlockView { text: current.text + line + seq!['\n'], ..current },
        fence,
    }
}

/// Reading lines `start..upto` of `ls`.
pub open spec fn md_scan(ls: Seq<Seq<char>>, start: nat, upto: nat) -> MdState
    decreases upto,
{
    if upto <= start {
        MdState { blocks: Seq::empty(), current: new_block(None, start + 1), fence: None }
    } else {
        md_step(md_scan(ls, start, (upto - 1) as nat), ls[upto - 1], (upto - 1) as nat)
    }
}

/// Index of the first body line: after a leading `---` front matter, else 0.
pub open spec fn body_start(ls: Seq<Seq<char>>) -> nat {
    if ls.len() > 0 && ls[0] == seq!['-', '-', '-'] {
        if exists|k: int| 1 <= k < ls.len() && ls[k] == seq!['-', '-', '-'] {
            let k = choose|k: int|
                1 <= k < ls.len() && ls[k] == seq!['-', '-', '-'] && forall|m: int|
                    1 <= m < k ==> ls[m] != seq!['-', '-', '-'];
            (k + 1) as nat
        } else {
            0
        }
    } else {
        0
    }
}

/// The Markdown blocks of `text`: one block per ATX heading outside code fences,
/// plus the text before the first heading, dropping blank blocks and front matter.
pub open spec fn spec_markdown_blocks(text: Seq<char>) -> Seq<BlockView> {
    let ls = lines_of(text);
    let start = body_start(ls);
    let st = md_scan(ls, start, if start <= ls.len() { ls.len() } else { start });
    close_blocks(st.blocks, st.current)
}

/// A line of `k` `#` characters, a space, and `rest`.
pub open spec fn atx_line(k: nat, rest: Seq<char>) -> Seq<char> {
    Seq::new(k, |i: int| '#') + seq![' '] + rest
}

/// Outside a code fence, a line of 1 to 6 `#` characters followed by a space
/// starts a new block at that line: the block being filled is closed, and the
/// new block's heading is the rest of the line, trimmed and stripped of
/// closing `#`.
pub proof fn atx_lines_start_blocks(st: MdState, k: nat, rest: Seq<char>, index: nat)
    requires
        1 <= k <= 6,
        st.fence is None,
    ensures
        md_step(st, atx_line(k, rest), index).blocks == close_blocks(st.blocks, st.current),
        md_step(st, atx_line(k, rest), index).current.heading == Some(trim(trim_end_char(trim(rest), '#'))),
        md_step(st, atx_line(k, rest), index).current.line_start == Some((index + 1) as u64),
        md_step(st, atx_line(k, rest), index).current.text == atx_line(k, rest) + seq!['\n'],
        md_step(st, atx_line(k, rest), index).fence is None,
{
    let line = atx_line(k, rest);
    assert(line[0] == '#');
    assert(!crate::text::is_ws(line[0]));
    assert(trim_start(line) == line);
    assert forall|j: int| 0 <= j < k implies line[j] == '#' by {}
    assert(line[k as int] == ' ');
    lemma_leading(line, '#', k as int);
    assert(fence_after(None, line) is None);
    let tail = line.skip(k as int);
    assert(tail =~= seq![' '] + rest);
    assert(tail.drop_first() =~= rest);
    assert(trim_start(tail) == trim_start(rest));
    assert(trim(tail) == trim(rest));
    assert(atx_heading(line) == Some(trim(trim_end_char(trim(rest), '#'))));
}

/// A line of more than 6 `#` characters, or of `#` characters followed by
/// anything but a space or another `#`, does not start a block: the line
/// joins the block being filled.
pub proof fn other_hash_lines_join_blocks(st: MdState, k: nat, next: char, rest: Seq<char>, index: nat)
    requires
        k >= 1,
        k >= 7 && next == ' ' || next != ' ' && next != '#',
    ensures
        md_step(st, Seq::new(k, |i: int| '#') + seq![next] + rest, index).blocks == st.blocks,
        md_step(st, Seq::new(k, |i: int| '#') + seq![next] + rest, index).current.heading == st.current.heading,
        md_step(st, Seq::new(k, |i: int| '#') + seq![next] + rest, index).current.line_start == st.current.line_start,
        md_step(st, Seq::new(k, |i: int| '#') + seq![next] + rest, index).current.text
            == st.current.text + (Seq::new(k, |i: int| '#') + seq![next] + rest) + seq!['\n'],
{
    let line = Seq::new(k, |i: int| '#') + seq![next] + rest;
    assert(line[0] == '#');
    assert(trim_start(line) == line);
    assert forall|j: int| 0 <= j < k implies line[j] == '#' by {}
    assert(line[k as int] == next);
    lemma_leading(line, '#', k as int);
    assert(atx_heading(line) is None);
}

/// Inside a code fence a heading line starts no block: the line joins the
/// block being filled and the fence stays open.
pub proof fn fenced_headings_join_blocks(st: MdState, k: nat, rest: Seq<char>, index: nat)
    requires
        1 <= k <= 6,
        st.fence is Some,
    ensures
        md_step(st, atx_line(k, rest), index).blocks == st.blocks,
        md_step(st, atx_line(k, rest), index).current.heading == st.current.heading,
        md_step(st, atx_line(k, rest), index).current.line_start == st.current.line_start,
        md_step(st, atx_line(k, rest), index).fence == st.fence,
{
    let line = atx_line(k, rest);
    assert(line[0] == '#');
    assert(trim_start(line) == line);
}

fn is_dashes(l: &Vec<char>) -> (b: bool)
    ensures
        b == (l@ == seq!['-', '-', '-']),
{
    let r = l.len() == 3 && l[0] == '-' && l[1] == '-' && l[2] == '-';
    proof {
        if r {
            assert(l@ =~= seq!['-', '-', '-']);
        }
    }
    r
}

fn heading_text(t: &[char]) -> (out: Option<Vec<char>>)
    ensures
        match out {
            Some(h) => atx_heading(t@) == Some(h@),
            None => atx_heading(t@) is None,
        },
{
    let hashes = count_leading(t, '#');
    if 1 <= hashes && hashes <= 6 && hashes < t.len() && t[hashes] == ' ' {
        let rest = slice_vec(t, hashes, t.len());
        proof {
            assert(rest@ =~= t@.skip(hashes as int));
        }
        let a = trimmed(rest.as_slice());
        let b = strip_end_char(a.as_slice(), '#');
        Some(trimmed(b.as_slice()))
    } else {
        None
    }
}

fn next_fence(fence: Option<(char, usize)>, t: &[char]) -> (out: Option<(char, usize)>)
    requires
        match fence {
            Some((_, n)) => n <= usize::MAX,
            None => true,
        },
    ensures
        fence_view(out) == fence_after(fence_view(fence), t@),
{
    let marker = if t.len() > 0 { t[0] } else { ' ' };
    let count = count_leading(t, marker);
    if (marker == '`' || marker == '~') && count >= 3 {
        match fence {
            Some((open, n)) => {
                let rest = slice_vec(t, count, t.len());
                proof {
                    assert(rest@ =~= t@.skip(count as int));
                }
                let r = trimmed(rest.as_slice());
                if marker == open && count >= n && r.len() == 0 {
                    None
                } else {
                    fence
                }
            },
            None => Some((marker, count)),
        }
    } else {
        fence
    }
}

pub open spec fn fence_view(f: Option<(char, usize)>) -> Fence {
    match f {
        Some((c, n)) => Some((c, n as nat)),
        None => None,
    }
}

fn push_block(blocks: &mut Vec<ExtractedBlock>, current: ExtractedBlock)
    ensures
        block_views(final(blocks)@) == close_blocks(block_views(old(blocks)@), block_view(current)),
{
    let text = chars_of(current.text.as_str());
    let t = trimmed(text.as_slice());
    if t.len() > 0 {
        let ghost before = blocks@;
        blocks.push(current);
        proof {
            assert(block_views(blocks@) =~= block_views(before).push(block_view(current)));
        }
    }
}

/// Split Markdown into heading-delimited blocks (see `spec_markdown_blocks`).
pub fn markdown_blocks(text: &str) -> (out: Vec<ExtractedBlock>)
    requires
        text@.len() < usize::MAX,
    ensures
        block_views(out@) == spec_markdown_blocks(text@),
{
    let chars = chars_of(text);
    let ls = lines(chars.as_slice());
    let ghost lsv = vviews(ls@);
    assert(lsv == lines_of(text@));
    let mut start: usize = 0;
    if ls.len() > 0 && is_dashes(&ls[0]) {
        let mut k: usize = 1;
        while k < ls.len() && !is_dashes(&ls[k])
            invariant
                1 <= k <= ls@.len(),
                lsv == vviews(ls@),
                forall|m: int| 1 <= m < k ==> lsv[m] != seq!['-', '-', '-'],
            decreases ls@.len() - k,
        {
            k = k + 1;
        }
        if k < ls.len() {
            start = k + 1;
            proof {
                assert(lsv[k as int] == seq!['-', '-', '-']);
                let kk = choose|kk: int|
                    1 <= kk < lsv.len() && lsv[kk] == seq!['-', '-', '-'] && forall|m: int|
                        1 <= m < kk ==> lsv[m] != seq!['-', '-', '-'];
                if kk < k {
                    assert(lsv[kk] != seq!['-', '-', '-']);
                }
                if k < kk {
                    assert(lsv[k as int] != seq!['-', '-', '-']);
                }
            }
        } else {
            proof {
                assert forall|m: int| 1 <= m < lsv.len() implies lsv[m] != seq!['-', '-', '-'] by {}
            }
        }
    }
    let mut blocks: Vec<ExtractedBlock> = Vec::new();
    let mut current = ExtractedBlock {
        heading: None,
        text: String::new(),
        line_start: Some((start + 1) as u64),
        location: None,
    };
    let mut fence: Option<(char, usize)> = None;
    let mut i: usize = start;
    proof {
        assert(block_views(blocks@) =~= Seq::<BlockView>::empty());
    }
    while i < ls.len()
        invariant
            start <= i <= ls@.len(),
            ls@.len() < usize::MAX,
            lsv == vviews(ls@),
            start == body_start(lsv),
            (MdState {
                blocks: block_views(blocks@),
                current: block_view(current),
                fence: fence_view(fence),
            }) == md_scan(lsv, start as nat, i as nat),
        decreases ls@.len() - i,
    {
        let line = &ls[i];
        let lead = trim_start_index(line.as_slice());
        let t = slice_vec(line.as_slice(), lead, line.len());
        proof {
            assert(t@ =~= trim_start(line@));
        }
        fence = next_fence(fence, t.as_slice());
        if fence.is_none() {
            match heading_text(t.as_slice()) {
                Some(h) => {
                    let finished = current;
                    push_block(&mut blocks, finished);
                    current = ExtractedBlock {
                        heading: Some(string_of(h.as_slice())),
                        text: String::new(),
                        line_start: Some((i + 1) as u64),
                        location: None,
                    };
                },
                None => {},
            }
        }
        current.text.append(string_of(line.as_slice()).as_str());
        current.text.push('\n');
        i = i + 1;
        proof {
            let st = md_scan(lsv, start as nat, (i - 1) as nat);
            assert(lsv[i - 1] == line@);
            assert(block_view(current).text =~= md_scan(lsv, start as nat, i as nat).current.text);
        }
    }
    let blocks_before = blocks;
    let mut out = blocks_before;
    push_block(&mut out, current);
    out
}

/// How far extraction got.
#[derive(Debug, Clone, Copy, PartialEq, Eq, Structural)]
pub enum ExtractionStatus {
    TextReady,
    MetadataOnly,
    Unsupported,
}

/// The text, links and title extracted from one source.
#[derive(Debug)]
pub struct ExtractedDocument {
    pub status: ExtractionStatus,
    pub extractor_id: String,
    pub extractor_version: String,
    pub title: Option<String>,
    pub links: Vec<ExtractedLink>,
    pub blocks: Vec<ExtractedBlock>,
    pub warnings: Vec<String>,
}

/// A document with its text as characters.
pub struct DocumentView {
    pub status: ExtractionStatus,
    pub extractor_id: Seq<char>,
    pub extractor_version: Seq<char>,
    pub title: Option<Seq<char>>,
    pub links: Seq<LinkView>,
    pub blocks: Seq<BlockView>,
    pub warnings: Seq<Seq<char>>,
}

pub open spec fn document_view(d: ExtractedDocument) -> DocumentView {
    DocumentView {
        status: d.status,
        extractor_id: d.extractor_id@,
        extractor_version: d.extractor_version@,
        title: opt_view(d.title),
        links: link_views(d.links@),
        blocks: block_views(d.blocks@),
        warnings: crate::text::views(d.warnings@),
    }
}

/// The kind of a source file.
#[derive(Debug, Clone, Copy, PartialEq, Eq, Structural)]
pub enum MediaType {
    Markdown,
    PlainText,
    Yaml,
    Json,
    Csv,
    Html,
    Epub,
    Docx,
    Pdf,
    Other,
}

/// The media type of a file extension, compared without regard to ASCII case.
pub open spec fn media_of(ext: Seq<char>) -> MediaType {
    let e = crate::text::ascii_lower(ext);
    if e == "md"@ || e == "markdown"@ {
        MediaType::Markdown
    } else if e == "txt"@ {
        MediaType::PlainText
    } else if e == "yaml"@ || e == "yml"@ {
        MediaType::Yaml
    } else if e == "json"@ {
        MediaType::Json
    } else if e == "csv"@ {
        MediaType::Csv
    } else if e == "html"@ || e == "htm"@ {
        MediaType::Html
    } else if e == "epub"@ {
        MediaType::Epub
    } else if e == "docx"@ {
        MediaType::Docx
    } else if e == "pdf"@ {
        MediaType::Pdf
    } else {
        MediaType::Other
    }
}

fn lit_eq(s: &Vec<char>, lit: &str) -> (b: bool)
    ensures
        b == (s@ == lit@),
{
    crate::text::equal_chars(s.as_slice(), chars_of(lit).as_slice())
}

/// The media type of a file with the given extension (none counts as no match).
pub fn classify_media_type(extension: Option<&str>) -> (m: MediaType)
    ensures
        m == media_of(match extension {
            Some(e) => e@,
            None => Seq::empty(),
        }),
{
    let e = match extension {
        Some(x) => crate::text::to_ascii_lower(chars_of(x).as_slice()),
        None => Vec::new(),
    };
    proof {
        if extension is None {
            assert(crate::text::ascii_lower(Seq::<char>::empty()) =~= Seq::<char>::empty());
        }
    }
    if lit_eq(&e, "md") || lit_eq(&e, "markdown") {
        MediaType::Markdown
    } else if lit_eq(&e, "txt") {
        MediaType::PlainText
    } else if lit_eq(&e, "yaml") || lit_eq(&e, "yml") {
        MediaType::Yaml
    } else if lit_eq(&e, "json") {
        MediaType::Json
    } else if lit_eq(&e, "csv") {
        MediaType::Csv
    } else if lit_eq(&e, "html") || lit_eq(&e, "htm") {
        MediaType::Html
    } else if lit_eq(&e, "epub") {
        MediaType::Epub
    } else if lit_eq(&e, "docx") {
        MediaType::Docx
    } else if lit_eq(&e, "pdf") {
        MediaType::Pdf
    } else {
        MediaType::Other
    }
}

/// What parsing the text as JSON reports when it fails.
pub uninterp spec fn json_problem(text: Seq<char>) -> Option<Seq<char>>;

/// What parsing the text as YAML reports when it fails.
pub uninterp spec fn yaml_problem(text: Seq<char>) -> Option<Seq<char>>;

/// `serde_json::from_str` into a JSON value: the parser's message when the text is not JSON.
#[verifier::external_body]
fn json_error(text: &str) -> (r: Option<String>)
    ensures
        match r {
            Some(e) => json_problem(text@) == Some(e@),
            None => json_problem(text@) is None,
        },
{
    match serde_json::from_str::<serde_json::Value>(text) {
        Ok(_) => None,
        Err(error) => Some(error.to_string()),
    }
}

/// `serde_yaml_ng::from_str` into a YAML value: the parser's message when the text is not YAML.
#[verifier::external_body]
fn yaml_error(text: &str) -> (r: Option<String>)
    ensures
        match r {
            Some(e) => yaml_problem(text@) == Some(e@),
            None => yaml_problem(text@) is None,
        },
{
    match serde_yaml_ng::from_str::<serde_yaml_ng::Value>(text) {
        Ok(_) => None,
        Err(error) => Some(error.to_string()),
    }
}

/// The extractor for plain text formats.
pub struct BuiltinTextExtractor;

pub open spec fn text_media(media: MediaType) -> bool {
    matches!(media, MediaType::Markdown | MediaType::PlainText | MediaType::Yaml | MediaType::Json | MediaType::Csv)
}

/// A document with no text and one warning.
pub open spec fn metadata_only(id: Seq<char>, status: ExtractionStatus, warnings: Seq<Seq<char>>) -> DocumentView {
    DocumentView {
        status,
        extractor_id: id,
        extractor_version: "v1"@,
        title: None,
        links: Seq::empty(),
        blocks: Seq::empty(),
        warnings,
    }
}

/// What the text extractor makes of some bytes: text that is not UTF-8 or
/// holds NUL is refused with a warning; JSON and YAML that do not parse keep
/// the parser's message as a warning; Markdown is split into blocks, other
/// text is one block from line 1.
pub open spec fn text_document(media: MediaType, bytes: Seq<u8>) -> DocumentView {
    if !valid_utf8(bytes) {
        metadata_only("builtin-text"@, ExtractionStatus::MetadataOnly, seq!["Expected UTF-8 text."@])
    } else {
        let text = decode_utf8(bytes);
        if text.contains('\0') {
            metadata_only("builtin-text"@, ExtractionStatus::MetadataOnly, seq!["Text contains NUL bytes."@])
        } else {
            let problem = if media == MediaType::Json {
                json_problem(text)
            } else if media == MediaType::Yaml {
                yaml_problem(text)
            } else {
                None
            };
            DocumentView {
                status: ExtractionStatus::TextReady,
                extractor_id: "builtin-text"@,
                extractor_version: "v1"@,
                title: None,
                links: Seq::empty(),
                blocks: if media == MediaType::Markdown {
                    spec_markdown_blocks(text)
                } else {
                    seq![BlockView { heading: None, text, line_start: Some(1), location: None }]
                },
                warnings: match problem {
                    Some(e) => seq![e],
                    None => Seq::empty(),
                },
            }
        }
    }
}

proof fn lemma_decoded_not_longer(b: Seq<u8>)
    requires
        valid_utf8(b),
    ensures
        decode_utf8(b).len() <= b.len(),
    decreases b.len(),
{
    if b.len() > 0 {
        let l = length_of_first_scalar(b);
        assert(1 <= l <= b.len());
        assert(pop_first_scalar(b).len() == b.len() - l);
        lemma_decoded_not_longer(pop_first_scalar(b));
    }
}

pub(crate) fn empty_document(id: &str, status: ExtractionStatus, warnings: Vec<String>) -> (d: ExtractedDocument)
    ensures
        document_view(d) == metadata_only(id@, status, crate::text::views(warnings@)),
{
    let d = ExtractedDocument {
        status,
        extractor_id: id.to_owned(),
        extractor_version: "v1".to_owned(),
        title: None,
        links: Vec::new(),
        blocks: Vec::new(),
        warnings,
    };
    proof {
        assert(link_views(d.links@) =~= Seq::<LinkView>::empty());
        assert(block_views(d.blocks@) =~= Seq::<BlockView>::empty());
    }
    d
}

fn one_warning(w: &str) -> (v: Vec<String>)
    ensures
        crate::text::views(v@) == seq![w@],
{
    let mut v: Vec<String> = Vec::new();
    v.push(w.to_owned());
    proof {
        assert(crate::text::views(v@) =~= seq![w@]);
    }
    v
}

/// The text extractor's document for some bytes (see `text_document`).
pub fn extract_text(media: MediaType, bytes: &[u8]) -> (d: ExtractedDocument)
    requires
        bytes@.len() < usize::MAX,
    ensures
        document_view(d) == text_document(media, bytes@),
{
    let text = match utf8_text_of(bytes) {
        Some(t) => t,
        None => {
            return empty_document("builtin-text", ExtractionStatus::MetadataOnly, one_warning("Expected UTF-8 text."));
        },
    };
    proof {
        lemma_decoded_not_longer(bytes@);
    }
    let chars = chars_of(text.as_str());
    if crate::text::contains_char(chars.as_slice(), '\0') {
        return empty_document("builtin-text", ExtractionStatus::MetadataOnly, one_warning("Text contains NUL bytes."));
    }
    let problem = match media {
        MediaType::Json => json_error(text.as_str()),
        MediaType::Yaml => yaml_error(text.as_str()),
        _ => None,
    };
    let blocks = match media {
        MediaType::Markdown => markdown_blocks(text.as_str()),
        _ => {
            let mut v: Vec<ExtractedBlock> = Vec::new();
            v.push(ExtractedBlock { heading: None, text: text.clone(), line_start: Some(1), location: None });
            proof {
                assert(block_views(v@) =~= seq![BlockView { heading: None, text: text@, line_start: Some(1), location: None }]);
            }
            v
        },
    };
    let warnings = match problem {
        Some(e) => {
            let mut w: Vec<String> = Vec::new();
            w.push(e);
            w
        },
        None => Vec::new(),
    };
    let d = ExtractedDocument {
        status: ExtractionStatus::TextReady,
        extractor_id: "builtin-text".to_owned(),
        extractor_version: "v1".to_owned(),
        title: None,
        links: Vec::new(),
        blocks,
        warnings,
    };
    proof {
        assert(link_views(d.links@) =~= Seq::<LinkView>::empty());
        assert(crate::text::views(d.warnings@) =~= match json_or_yaml(media, text@) {
            Some(e) => seq![e],
            None => Seq::<Seq<char>>::empty(),
        });
    }
    d
}

pub open spec fn json_or_yaml(media: MediaType, text: Seq<char>) -> Option<Seq<char>> {
    if media == MediaType::Json {
        json_problem(text)
    } else if media == MediaType::Yaml {
        yaml_problem(text)
    } else {
        None
    }
}

fn utf8_text_of(bytes: &[u8]) -> (r: Option<String>)
    ensures
        r is Some <==> valid_utf8(bytes@),
        r matches Some(t) ==> t@ == decode_utf8(bytes@),
{
    crate::text::utf8_text(bytes).ok()
}

impl BuiltinTextExtractor {
    pub fn id(&self) -> (s: &'static str)
        ensures
            s@ == "builtin-text"@,
    {
        "builtin-text"
    }

    pub fn version(&self) -> (s: &'static str)
        ensures
            s@ == "v1"@,
    {
        "v1"
    }

    /// Markdown, plain text, YAML, JSON and CSV.
    pub fn supports(&self, media: MediaType) -> (b: bool)
        ensures
            b == text_media(media),
    {
        matches!(media, MediaType::Markdown | MediaType::PlainText | MediaType::Yaml | MediaType::Json | MediaType::Csv)
    }

    /// The text document of the bytes (see `text_document`).
    pub fn extract(&self, media: MediaType, bytes: &[u8]) -> (d: ExtractedDocument)
        requires
            bytes@.len() < usize::MAX,
        ensures
            document_view(d) == text_document(media, bytes@),
    {
        extract_text(media, bytes)
    }
}

/// The document for a format without a working extractor: PDF and the
/// document formats keep metadata with a warning; other files are unsupported.
pub open spec fn unavailable_document(media: MediaType) -> DocumentView {
    match media {
        MediaType::Pdf => metadata_only("none"@, ExtractionStatus::MetadataOnly, seq!["PDF text extraction is a future extension."@]),
        MediaType::Html | MediaType::Epub | MediaType::Docx => metadata_only(
            "none"@,
            ExtractionStatus::MetadataOnly,
            seq!["The built-in document extractor is unavailable."@],
        ),
        _ => metadata_only("none"@, ExtractionStatus::Unsupported, Seq::empty()),
    }
}

/// The document for a format without a working extractor (see `unavailable_document`).
pub fn unavailable(media: MediaType) -> (d: ExtractedDocument)
    requires
        !text_media(media),
    ensures
        document_view(d) == unavailable_document(media),
{
    match media {
        MediaType::Pdf => empty_document("none", ExtractionStatus::MetadataOnly, one_warning("PDF text extraction is a future extension.")),
        MediaType::Html | MediaType::Epub | MediaType::Docx => empty_document(
            "none",
            ExtractionStatus::MetadataOnly,
            one_warning("The built-in document extractor is unavailable."),
        ),
        _ => {
            let d = empty_document("none", ExtractionStatus::Unsupported, Vec::new());
            proof {
                assert(crate::text::views(Seq::<String>::empty()) =~= Seq::<Seq<char>>::empty());
            }
            d
        },
    }
}

/// The blocks of a structured source: no line numbers, each located by
/// `locate` from its position counted from 1.
pub open spec fn located(blocks: Seq<BlockView>, locate: spec_fn(u64) -> LocationView) -> Seq<BlockView> {
    blocks.map(|i: int, b: BlockView| BlockView { line_start: None, location: Some(locate((i + 1) as u64)), ..b })
}

/// A finished document of a structured source, or its one warning.
pub open spec fn structured_document(
    id: Seq<char>,
    content: Result<(Option<Seq<char>>, Seq<LinkView>, Seq<BlockView>), Seq<char>>,
) -> DocumentView {
    match content {
        Ok((title, links, blocks)) => DocumentView {
            status: ExtractionStatus::TextReady,
            extractor_id: id,
            extractor_version: "v1"@,
            title,
            links,
            blocks,
            warnings: Seq::empty(),
        },
        Err(w) => metadata_only(id, ExtractionStatus::MetadataOnly, seq![w]),
    }
}

/// The document of a structured source from its content or its warning
/// (see `structured_document`).
pub fn structured(
    id: &str,
    content: Result<(Option<String>, Vec<ExtractedLink>, Vec<ExtractedBlock>), String>,
) -> (d: ExtractedDocument)
    ensures
        document_view(d) == structured_document(id@, match content {
            Ok((t, l, b)) => Ok((opt_view(t), link_views(l@), block_views(b@))),
            Err(w) => Err(w@),
        }),
{
    match content {
        Ok((title, links, blocks)) => {
            let d = ExtractedDocument {
                status: ExtractionStatus::TextReady,
                extractor_id: id.to_owned(),
                extractor_version: "v1".to_owned(),
                title,
                links,
                blocks,
                warnings: Vec::new(),
            };
            proof {
                assert(crate::text::views(d.warnings@) =~= Seq::<Seq<char>>::empty());
            }
            d
        },
        Err(w) => {
            let mut ws: Vec<String> = Vec::new();
            ws.push(w);
            proof {
                assert(crate::text::views(ws@) =~= seq![w@]);
            }
            empty_document(id, ExtractionStatus::MetadataOnly, ws)
        },
    }
}

pub open spec fn place(resource: Option<Seq<char>>, k: u64) -> LocationView {
    match resource {
        Some(r) => LocationView::Epub { resource: r, block: k },
        None => LocationView::Html { block: k },
    }
}

/// Drop the blocks' line numbers and locate each by its position counted
/// from 1: in the EPUB resource when one is named, else in the HTML page.
pub fn relocate(blocks: Vec<ExtractedBlock>, resource: Option<&str>) -> (out: Vec<ExtractedBlock>)
    ensures
        block_views(out@) == located(block_views(blocks@), |k: u64| place(match resource {
            Some(r) => Some(r@),
            None => None,
        }, k)),
{
    let ghost res = match resource { Some(r) => Some(r@), None => None };
    let ghost bv = block_views(blocks@);
    let mut out: Vec<ExtractedBlock> = Vec::new();
    let mut i: usize = 0;
    while i < blocks.len()
        invariant
            i <= blocks@.len(),
            out@.len() == i,
            bv == block_views(blocks@),
            res == (match resource { Some(r) => Some(r@), None => None::<Seq<char>> }),
            forall|k: int| 0 <= k < i ==> #[trigger] block_view(out@[k]) == located(bv, |j: u64| place(res, j))[k],
        decreases blocks@.len() - i,
    {
        let b = &blocks[i];
        let heading = match &b.heading {
            Some(h) => Some(h.clone()),
            None => None,
        };
        let location = match resource {
            Some(r) => SourceLocation::Epub { resource: r.to_owned(), block: (i + 1) as u64 },
            None => SourceLocation::Html { block: (i + 1) as u64 },
        };
        out.push(ExtractedBlock { heading, text: b.text.clone(), line_start: None, location: Some(location) });
        i = i + 1;
    }
    proof {
        assert(block_views(out@) =~= located(bv, |j: u64| place(res, j)));
    }
    out
}

/// The document extracted from some bytes: text formats give the text
/// extractor's document, PDF and other media none, and HTML, EPUB and DOCX
/// the document their own extractor gives for an outcome of the outside
/// parsers (the HTML parser's title and links, the archive's reads).
#[verifier::opaque]
pub open spec fn extraction_agrees(media: MediaType, bytes: Seq<u8>, d: DocumentView) -> bool {
    &&& text_media(media) ==> d == text_document(media, bytes)
    &&& media == MediaType::Html ==> exists|c: Result<(Option<Seq<char>>, Seq<LinkView>, Seq<BlockView>), Seq<char>>|
        #![trigger crate::html::html_parsed(bytes, c)]
        crate::html::html_parsed(bytes, c) && d == crate::html::html_document(c)
    &&& media == MediaType::Epub ==> exists|a: Result<Seq<(Seq<char>, Seq<u8>)>, Seq<char>>, pages: Seq<crate::epub::PageContent>|
        #![trigger crate::archive::archive_opens(bytes, "EPUB"@, a), crate::epub::epub_outcome(a, pages)]
        crate::archive::archive_opens(bytes, "EPUB"@, a) && (a matches Ok(entries) ==> crate::epub::pages_fit(entries, pages))
            && d == structured_document("builtin-epub"@, crate::epub::epub_outcome(a, pages))
    &&& media == MediaType::Docx ==> exists|a: Result<Seq<(Seq<char>, Seq<u8>)>, Seq<char>>|
        #![trigger crate::archive::archive_opens(bytes, "DOCX"@, a)]
        crate::archive::archive_opens(bytes, "DOCX"@, a) && d == structured_document("builtin-docx"@, crate::docx::docx_outcome(a))
    &&& media == MediaType::Pdf || media == MediaType::Other ==> d == unavailable_document(media)
}

/// The document of a source's bytes: text formats go to the text extractor,
/// HTML, EPUB and DOCX to their own extractors, and anything else has none.
pub fn extract_bytes(media: MediaType, bytes: Vec<u8>) -> (d: ExtractedDocument)
    requires
        bytes@.len() < usize::MAX,
    ensures
        extraction_agrees(media, bytes@, document_view(d)),
{
    reveal(extraction_agrees);
    let builtin = BuiltinTextExtractor;
    if builtin.supports(media) {
        builtin.extract(media, bytes.as_slice())
    } else {
        match media {
            MediaType::Html => crate::html::extract(bytes.as_slice()),
            MediaType::Epub => crate::epub::extract(bytes),
            MediaType::Docx => crate::docx::extract(bytes),
            _ => unavailable(media),
        }
    }
}

} // verus!
