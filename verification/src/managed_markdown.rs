//! The product-managed region of `Wiki/index.md` and `Wiki/log.md`: locating it,
//! replacing it, and rendering the index and log bodies that go inside it.

use vstd::prelude::*;
use crate::text::{
    append_chars, chars_of, collapse_whitespace, collapse_ws, find_char, find_from, index_of,
    lemma_index_of, occurs_at, contains_seq, slice_vec, starts_with, starts_with_exec, string_of, trim, trim_end,
    trim_end_index, trim_start, trim_start_index, trimmed,
};

verus! {

/// Opening marker of the managed region.
pub open spec fn start_marker() -> Seq<char> {
    "<!-- kb:managed:start -->"@
}

/// Closing marker of the managed region.
pub open spec fn end_marker() -> Seq<char> {
    "<!-- kb:managed:end -->"@
}

/// The managed region of a Markdown file could not be located.
#[derive(Debug, Clone, Copy, PartialEq, Eq)]
pub enum RegionError {
    /// Expected exactly one ordered start and end marker.
    Markers,
}

/// `i` is the first start marker and no further (non-overlapping) start marker
/// follows it; likewise `j` for the end marker; and the end follows the start.
pub open spec fn region_at(o: Seq<char>, i: int, j: int) -> bool {
    let s = start_marker();
    let e = end_marker();
    &&& occurs_at(o, s, i)
    &&& (forall|k: int| 0 <= k < i ==> !occurs_at(o, s, k))
    &&& (forall|k: int| i + s.len() <= k ==> !occurs_at(o, s, k))
    &&& occurs_at(o, e, j)
    &&& (forall|k: int| 0 <= k < j ==> !occurs_at(o, e, k))
    &&& (forall|k: int| j + e.len() <= k ==> !occurs_at(o, e, k))
    &&& i + s.len() <= j
}

/// The text before the start marker, between the markers, and after the end marker,
/// when the region is well formed.
pub open spec fn region_split(o: Seq<char>) -> Option<(Seq<char>, Seq<char>, Seq<char>)> {
    if exists|i: int, j: int| region_at(o, i, j) {
        let (i, j) = choose|i: int, j: int| region_at(o, i, j);
        Some(
            (
                o.take(i),
                o.subrange(i + start_marker().len(), j),
                o.skip(j + end_marker().len()),
            ),
        )
    } else {
        None
    }
}

proof fn lemma_region_unique(o: Seq<char>, i: int, j: int, i2: int, j2: int)
    requires
        region_at(o, i, j),
        region_at(o, i2, j2),
    ensures
        i == i2,
        j == j2,
{
    if i < i2 {
        assert(!occurs_at(o, start_marker(), i));
    }
    if i2 < i {
        assert(!occurs_at(o, start_marker(), i2));
    }
    if j < j2 {
        assert(!occurs_at(o, end_marker(), j));
    }
    if j2 < j {
        assert(!occurs_at(o, end_marker(), j2));
    }
}

proof fn lemma_region_split_at(o: Seq<char>, i: int, j: int)
    requires
        region_at(o, i, j),
    ensures
        region_split(o) == Some(
            (o.take(i), o.subrange(i + start_marker().len(), j), o.skip(j + end_marker().len())),
        ),
{
    let (i2, j2) = choose|i: int, j: int| region_at(o, i, j);
    lemma_region_unique(o, i, j, i2, j2);
}

/// The three parts around the managed markers (before, managed, after).
pub fn region_parts(original: &[char]) -> (r: Result<(Vec<char>, Vec<char>, Vec<char>), RegionError>)
    ensures
        match r {
            Ok((b, m, a)) => region_split(original@) == Some((b@, m@, a@)),
            Err(_) => region_split(original@) is None,
        },
{
    let start = chars_of("<!-- kb:managed:start -->");
    let end = chars_of("<!-- kb:managed:end -->");
    let n = original.len();
    let Some(i) = find_from(original, start.as_slice(), 0) else {
        return Err(RegionError::Markers);
    };
    if find_from(original, start.as_slice(), i + start.len()).is_some() {
        proof {
            assert forall|i2: int, j2: int| !region_at(original@, i2, j2) by {
                if region_at(original@, i2, j2) {
                    assert(i2 == i);
                }
            }
        }
        return Err(RegionError::Markers);
    }
    let after_start = i + start.len();
    let Some(j) = find_from(original, end.as_slice(), 0) else {
        return Err(RegionError::Markers);
    };
    if find_from(original, end.as_slice(), j + end.len()).is_some() || j < after_start {
        proof {
            assert forall|i2: int, j2: int| !region_at(original@, i2, j2) by {
                if region_at(original@, i2, j2) {
                    assert(i2 == i);
                    assert(j2 == j);
                }
            }
        }
        return Err(RegionError::Markers);
    }
    proof {
        assert(region_at(original@, i as int, j as int));
        lemma_region_split_at(original@, i as int, j as int);
    }
    Ok(
        (
            slice_vec(original, 0, i),
            slice_vec(original, after_start, j),
            slice_vec(original, j + end.len(), original.len()),
        ),
    )
}

/// The managed text as it stands between the markers after a replacement.
pub open spec fn wrapped(managed: Seq<char>) -> Seq<char> {
    (if managed.len() == 0 { Seq::empty() } else { seq!['\n'] + managed }) + seq!['\n']
}

/// `original` with its managed region replaced by `managed`.
pub open spec fn spec_replace_region(
    parts: (Seq<char>, Seq<char>, Seq<char>),
    managed: Seq<char>,
) -> Seq<char> {
    parts.0 + start_marker() + wrapped(managed) + end_marker() + parts.2
}

/// Replace the text between the managed markers, keeping everything outside them.
pub fn replace_region(original: &[char], managed: &[char]) -> (r: Result<Vec<char>, RegionError>)
    ensures
        match r {
            Ok(out) => region_split(original@) matches Some(parts) && out@
                == spec_replace_region(parts, managed@),
            Err(_) => region_split(original@) is None,
        },
{
    let (before, _, after) = region_parts(original)?;
    let mut out = before;
    let start = chars_of("<!-- kb:managed:start -->");
    let end = chars_of("<!-- kb:managed:end -->");
    append_chars(&mut out, start.as_slice());
    if managed.len() > 0 {
        out.push('\n');
        append_chars(&mut out, managed);
    }
    out.push('\n');
    append_chars(&mut out, end.as_slice());
    append_chars(&mut out, after.as_slice());
    proof {
        let parts = region_split(original@).unwrap();
        assert(out@ =~= spec_replace_region(parts, managed@));
    }
    Ok(out)
}

/// One escaped label character.
pub open spec fn escape_char(c: char) -> Seq<char> {
    if c == '\\' || c == '[' || c == ']' {
        seq!['\\', c]
    } else {
        seq![c]
    }
}

/// A Markdown link label with `\`, `[` and `]` escaped by a backslash.
pub open spec fn escape(s: Seq<char>) -> Seq<char>
    decreases s.len(),
{
    if s.len() == 0 {
        Seq::empty()
    } else {
        escape(s.drop_last()) + escape_char(s.last())
    }
}

/// Escape a link label (see `escape`).
pub fn escape_label(value: &[char]) -> (out: Vec<char>)
    ensures
        out@ == escape(value@),
{
    let mut out: Vec<char> = Vec::new();
    let mut i: usize = 0;
    while i < value.len()
        invariant
            i <= value@.len(),
            out@ == escape(value@.take(i as int)),
        decreases value@.len() - i,
    {
        let c = value[i];
        if c == '\\' || c == '[' || c == ']' {
            out.push('\\');
        }
        out.push(c);
        proof {
            assert(value@.take(i + 1).drop_last() =~= value@.take(i as int));
            assert(out@ =~= escape(value@.take(i + 1)));
        }
        i = i + 1;
    }
    proof {
        assert(value@.take(value@.len() as int) =~= value@);
    }
    out
}

proof fn lemma_marker_chars()
    ensures
        start_marker() == seq![
            '<', '!', '-', '-', ' ', 'k', 'b', ':', 'm', 'a', 'n', 'a', 'g', 'e', 'd', ':', 's',
            't', 'a', 'r', 't', ' ', '-', '-', '>',
        ],
        end_marker() == seq![
            '<', '!', '-', '-', ' ', 'k', 'b', ':', 'm', 'a', 'n', 'a', 'g', 'e', 'd', ':', 'e',
            'n', 'd', ' ', '-', '-', '>',
        ],
{
    reveal_strlit("<!-- kb:managed:start -->");
    reveal_strlit("<!-- kb:managed:end -->");
    assert(start_marker() =~= seq![
        '<', '!', '-', '-', ' ', 'k', 'b', ':', 'm', 'a', 'n', 'a', 'g', 'e', 'd', ':', 's',
        't', 'a', 'r', 't', ' ', '-', '-', '>',
    ]);
    assert(end_marker() =~= seq![
        '<', '!', '-', '-', ' ', 'k', 'b', ':', 'm', 'a', 'n', 'a', 'g', 'e', 'd', ':', 'e',
        'n', 'd', ' ', '-', '-', '>',
    ]);
}

/// An occurrence of `p` in `n` lying within the window `n[lo..hi]`, where that window
/// equals `y`, is an occurrence of `p` in `y`.
proof fn lemma_occurs_window(n: Seq<char>, y: Seq<char>, p: Seq<char>, lo: int, k: int)
    requires
        0 <= lo,
        lo + y.len() <= n.len(),
        n.subrange(lo, lo + y.len()) == y,
        occurs_at(n, p, k),
        lo <= k,
        k + p.len() <= lo + y.len(),
    ensures
        occurs_at(y, p, k - lo),
{
    assert(y.subrange(k - lo, k - lo + p.len()) =~= n.subrange(k, k + p.len())) by {
        assert forall|t: int| 0 <= t < p.len() implies #[trigger] y.subrange(k - lo, k - lo + p.len())[t]
            == n.subrange(k, k + p.len())[t] by {
            assert(y[k - lo + t] == n.subrange(lo, lo + y.len())[k - lo + t]);
        }
    }
}

/// An occurrence of `p` in `n` covering position `q` means `p[q - k] == n[q]`.
proof fn lemma_occurs_char(n: Seq<char>, p: Seq<char>, k: int, q: int)
    requires
        occurs_at(n, p, k),
        k <= q < k + p.len(),
    ensures
        p[q - k] == n[q],
{
    assert(n.subrange(k, k + p.len())[q - k] == n[q]);
}

proof fn lemma_marker_facts()
    ensures
        start_marker().len() == 25,
        end_marker().len() == 23,
        forall|t: int| 0 <= t < 25 ==> #[trigger] start_marker()[t] != '\n',
        forall|t: int| 0 <= t < 24 ==> #[trigger] start_marker()[t] != '>',
        forall|t: int| 0 <= t < 23 ==> #[trigger] end_marker()[t] != '\n',
        end_marker()[22] == '>',
{
    lemma_marker_chars();
}

/// The text written by a replacement, given the original region positions.
spec fn rebuilt(original: Seq<char>, managed: Seq<char>, i: int, j: int) -> Seq<char> {
    original.take(i) + start_marker() + wrapped(managed) + end_marker() + original.skip(
        j + end_marker().len(),
    )
}

proof fn lemma_rebuilt_start(original: Seq<char>, managed: Seq<char>, i: int, j: int)
    requires
        region_at(original, i, j),
        !contains_seq(managed, start_marker()),
    ensures
        forall|k: int| 0 <= k < i ==> !occurs_at(rebuilt(original, managed, i, j), start_marker(), k),
        forall|k: int|
            i + start_marker().len() <= k ==> !occurs_at(
                rebuilt(original, managed, i, j),
                start_marker(),
                k,
            ),
{
    lemma_marker_facts();
    let s = start_marker();
    let e = end_marker();
    let a = original.skip(j + e.len());
    let w = wrapped(managed);
    let n = rebuilt(original, managed, i, j);
    let ns: int = i + s.len();
    let ne: int = ns + w.len();
    assert(n.subrange(0, ns) =~= original.subrange(0, ns));
    assert(n.subrange(ne + e.len(), n.len() as int) =~= a);
    assert(n[ne - 1] == '\n');
    assert(n[ne + e.len() - 1] == '>');
    assert forall|k: int| 0 <= k < i implies !occurs_at(n, s, k) by {
        if occurs_at(n, s, k) {
            lemma_occurs_window(n, original.subrange(0, ns), s, 0, k);
            assert(original.subrange(0, ns).subrange(k, k + s.len()) =~= original.subrange(k, k + s.len()));
            assert(occurs_at(original, s, k));
        }
    }
    assert(n[ns] == '\n');
    assert forall|k: int| ns <= k implies !occurs_at(n, s, k) by {
        if occurs_at(n, s, k) {
            if k == ns {
                lemma_occurs_char(n, s, k, ns);
            } else if k + s.len() <= ne - 1 {
                if managed.len() > 0 {
                    assert(n.subrange(ns + 1, ns + 1 + managed.len()) =~= managed);
                    lemma_occurs_window(n, managed, s, ns + 1, k);
                }
            } else if k <= ne - 1 {
                lemma_occurs_char(n, s, k, ne - 1);
            } else if k < ne + e.len() {
                lemma_occurs_char(n, s, k, ne + e.len() - 1);
            } else {
                lemma_occurs_window(n, a, s, ne + e.len(), k);
                let k2 = k - (ne + e.len()) + j + e.len();
                assert(original.subrange(k2, k2 + s.len()) =~= a.subrange(
                    k - (ne + e.len()),
                    k - (ne + e.len()) + s.len(),
                ));
                assert(occurs_at(original, s, k2));
            }
        }
    }
}

proof fn lemma_rebuilt_end(original: Seq<char>, managed: Seq<char>, i: int, j: int)
    requires
        region_at(original, i, j),
        !contains_seq(managed, end_marker()),
    ensures
        forall|k: int|
            0 <= k < i + start_marker().len() + wrapped(managed).len() ==> !occurs_at(
                rebuilt(original, managed, i, j),
                end_marker(),
                k,
            ),
        forall|k: int|
            i + start_marker().len() + wrapped(managed).len() + end_marker().len() <= k
                ==> !occurs_at(rebuilt(original, managed, i, j), end_marker(), k),
{
    lemma_marker_facts();
    let s = start_marker();
    let e = end_marker();
    let a = original.skip(j + e.len());
    let w = wrapped(managed);
    let n = rebuilt(original, managed, i, j);
    let ns: int = i + s.len();
    let ne: int = ns + w.len();
    assert(n.subrange(0, ns) =~= original.subrange(0, ns));
    assert(n.subrange(ne + e.len(), n.len() as int) =~= a);
    assert(n[ne - 1] == '\n');
    assert(n[ns] == '\n');
    assert forall|k: int| 0 <= k < ne implies !occurs_at(n, e, k) by {
        if occurs_at(n, e, k) {
            if k + e.len() <= ns {
                lemma_occurs_window(n, original.subrange(0, ns), e, 0, k);
                assert(original.subrange(0, ns).subrange(k, k + e.len()) =~= original.subrange(k, k + e.len()));
                assert(occurs_at(original, e, k));
            } else if k <= ns {
                lemma_occurs_char(n, e, k, ns);
            } else if k + e.len() <= ne - 1 {
                assert(n.subrange(ns + 1, ns + 1 + managed.len()) =~= managed);
                lemma_occurs_window(n, managed, e, ns + 1, k);
            } else {
                lemma_occurs_char(n, e, k, ne - 1);
            }
        }
    }
    assert forall|k: int| ne + e.len() <= k implies !occurs_at(n, e, k) by {
        if occurs_at(n, e, k) {
            lemma_occurs_window(n, a, e, ne + e.len(), k);
            let k2 = k - (ne + e.len()) + j + e.len();
            assert(original.subrange(k2, k2 + e.len()) =~= a.subrange(
                k - (ne + e.len()),
                k - (ne + e.len()) + e.len(),
            ));
            assert(occurs_at(original, e, k2));
        }
    }
}

/// Replacing the managed text and locating the region again gives back the same
/// outside text and the new managed text (framed by its line breaks), provided the
/// new text holds no marker of its own.
pub proof fn replace_then_locate(original: Seq<char>, managed: Seq<char>)
    requires
        region_split(original) is Some,
        !contains_seq(managed, start_marker()),
        !contains_seq(managed, end_marker()),
    ensures
        region_split(spec_replace_region(region_split(original).unwrap(), managed)) == Some(
            (region_split(original).unwrap().0, wrapped(managed), region_split(original).unwrap().2),
        ),
{
    let s = start_marker();
    let e = end_marker();
    let (i, j) = choose|i: int, j: int| region_at(original, i, j);
    lemma_region_split_at(original, i, j);
    let n = rebuilt(original, managed, i, j);
    assert(spec_replace_region(region_split(original).unwrap(), managed) == n);
    lemma_rebuilt_start(original, managed, i, j);
    lemma_rebuilt_end(original, managed, i, j);
    let w = wrapped(managed);
    let ne: int = i + s.len() + w.len();
    assert(n.subrange(i, i + s.len()) =~= s);
    assert(n.subrange(ne, ne + e.len()) =~= e);
    assert(region_at(n, i, ne));
    lemma_region_split_at(n, i, ne);
    assert(n.take(i) =~= original.take(i));
    assert(n.subrange(i + s.len(), ne) =~= w);
    assert(n.skip(ne + e.len()) =~= original.skip(j + e.len()));
}

/// One line of the managed index.
pub struct IndexEntry {
    pub path: String,
    pub title: String,
    pub description: Option<String>,
}

/// One line of the managed log.
pub struct LogEntry {
    pub path: String,
    pub title: String,
    pub summary: String,
    pub creation: bool,
}

/// `- [title](path)`, then ` — description` with whitespace collapsed, then a newline.
pub open spec fn index_line(e: IndexEntry) -> Seq<char> {
    seq!['-', ' ', '['] + escape(e.title@) + seq![']', '('] + e.path@ + seq![')'] + match e.description {
        Some(d) => seq![' ', '\u{2014}', ' '] + collapse_ws(d@),
        None => Seq::empty(),
    } + seq!['\n']
}

/// All index lines of `entries`, in order.
pub open spec fn index_lines(entries: Seq<IndexEntry>) -> Seq<char>
    decreases entries.len(),
{
    if entries.len() == 0 {
        Seq::empty()
    } else {
        index_lines(entries.drop_last()) + index_line(entries.last())
    }
}

/// `output` followed by one `## heading` group of index lines; nothing when there are no entries.
pub open spec fn group(output: Seq<char>, heading: Seq<char>, entries: Seq<IndexEntry>) -> Seq<char> {
    if entries.len() == 0 {
        output
    } else {
        output + (if output.len() > 0 { seq!['\n'] } else { Seq::empty() }) + seq!['#', '#', ' ']
            + heading + seq!['\n'] + index_lines(entries)
    }
}

fn push_index_line(output: &mut Vec<char>, entry: &IndexEntry)
    ensures
        final(output)@ == old(output)@ + index_line(*entry),
{
    let ghost base = output@;
    output.push('-');
    output.push(' ');
    output.push('[');
    let title = chars_of(entry.title.as_str());
    let escaped = escape_label(title.as_slice());
    append_chars(output, escaped.as_slice());
    output.push(']');
    output.push('(');
    let path = chars_of(entry.path.as_str());
    append_chars(output, path.as_slice());
    output.push(')');
    match &entry.description {
        Some(description) => {
            output.push(' ');
            output.push('\u{2014}');
            output.push(' ');
            let d = chars_of(description.as_str());
            let collapsed = collapse_whitespace(d.as_slice());
            append_chars(output, collapsed.as_slice());
        },
        None => {},
    }
    output.push('\n');
    proof {
        assert(output@ =~= base + index_line(*entry));
    }
}

/// Append one heading and its entries (nothing when `entries` is empty).
pub fn render_group(output: &mut Vec<char>, heading: &str, entries: &[IndexEntry])
    ensures
        final(output)@ == group(old(output)@, heading@, entries@),
{
    if entries.len() == 0 {
        return;
    }
    let ghost base = output@;
    if output.len() > 0 {
        output.push('\n');
    }
    output.push('#');
    output.push('#');
    output.push(' ');
    let h = chars_of(heading);
    append_chars(output, h.as_slice());
    output.push('\n');
    let ghost head = output@;
    let mut i: usize = 0;
    while i < entries.len()
        invariant
            i <= entries@.len(),
            output@ == head + index_lines(entries@.take(i as int)),
        decreases entries@.len() - i,
    {
        push_index_line(output, &entries[i]);
        proof {
            assert(entries@.take(i + 1).drop_last() =~= entries@.take(i as int));
        }
        i = i + 1;
    }
    proof {
        assert(entries@.take(entries@.len() as int) =~= entries@);
        assert(output@ =~= group(base, heading@, entries@));
    }
}

/// The managed index body: a `Research` group then an `Articles` group.
pub open spec fn index_body(research: Seq<IndexEntry>, articles: Seq<IndexEntry>) -> Seq<char> {
    trim_end(group(group(Seq::empty(), "Research"@, research), "Articles"@, articles))
}

/// Regenerate the managed region of `Wiki/index.md`.
pub fn render_index(
    original: &str,
    research: &[IndexEntry],
    articles: &[IndexEntry],
) -> (r: Result<String, RegionError>)
    ensures
        match r {
            Ok(out) => region_split(original@) matches Some(parts) && out@ == spec_replace_region(
                parts,
                index_body(research@, articles@),
            ),
            Err(_) => region_split(original@) is None,
        },
{
    let mut body: Vec<char> = Vec::new();
    render_group(&mut body, "Research", research);
    render_group(&mut body, "Articles", articles);
    let k = trim_end_index(body.as_slice());
    let managed = slice_vec(body.as_slice(), 0, k);
    let o = chars_of(original);
    let out = replace_region(o.as_slice(), managed.as_slice())?;
    Ok(string_of(out.as_slice()))
}

/// One log line: `- **Creation**: [title](path) — summary` (or `Update`).
pub open spec fn log_line(e: LogEntry) -> Seq<char> {
    seq!['-', ' ', '*', '*'] + (if e.creation { "Creation"@ } else { "Update"@ }) + seq![
        '*',
        '*',
        ':',
        ' ',
        '[',
    ] + escape(e.title@) + seq![']', '('] + e.path@ + seq![')', ' ', '\u{2014}', ' ']
        + e.summary@
}

/// The log lines of `entries`, separated by newlines.
pub open spec fn log_lines(entries: Seq<LogEntry>) -> Seq<char>
    decreases entries.len(),
{
    if entries.len() == 0 {
        Seq::empty()
    } else if entries.len() == 1 {
        log_line(entries[0])
    } else {
        log_lines(entries.drop_last()) + seq!['\n'] + log_line(entries.last())
    }
}

/// The new managed log body: the day's heading and lines, merged into an existing
/// heading for the same day or placed above the earlier days.
pub open spec fn log_body(managed: Seq<char>, date: Seq<char>, entries: Seq<LogEntry>) -> Seq<char> {
    let heading = seq!['#', '#', ' '] + date;
    let lines = log_lines(entries);
    let body = if trim(managed).len() == 0 {
        heading + seq!['\n'] + lines
    } else if starts_with(trim_start(managed), heading) {
        let normalized = trim_start(managed);
        let split = index_of(normalized, '\n');
        let after = if split < 0 { Seq::empty() } else { normalized.skip(split) };
        heading + seq!['\n'] + lines + after
    } else {
        heading + seq!['\n'] + lines + seq!['\n', '\n'] + trim(managed)
    };
    trim_end(body)
}

fn push_log_line(output: &mut Vec<char>, entry: &LogEntry)
    ensures
        final(output)@ == old(output)@ + log_line(*entry),
{
    let ghost base = output@;
    output.push('-');
    output.push(' ');
    output.push('*');
    output.push('*');
    let kind = if entry.creation { chars_of("Creation") } else { chars_of("Update") };
    append_chars(output, kind.as_slice());
    output.push('*');
    output.push('*');
    output.push(':');
    output.push(' ');
    output.push('[');
    let title = chars_of(entry.title.as_str());
    let escaped = escape_label(title.as_slice());
    append_chars(output, escaped.as_slice());
    output.push(']');
    output.push('(');
    let path = chars_of(entry.path.as_str());
    append_chars(output, path.as_slice());
    output.push(')');
    output.push(' ');
    output.push('\u{2014}');
    output.push(' ');
    let summary = chars_of(entry.summary.as_str());
    append_chars(output, summary.as_slice());
    proof {
        assert(output@ =~= base + log_line(*entry));
    }
}

/// Prepend (or merge) the day's entries into the managed region of `Wiki/log.md`.
pub fn render_log(original: &str, date: &str, entries: &[LogEntry]) -> (r: Result<String, RegionError>)
    ensures
        match r {
            Ok(out) => region_split(original@) matches Some(parts) && out@ == spec_replace_region(
                parts,
                log_body(parts.1, date@, entries@),
            ),
            Err(_) => region_split(original@) is None,
        },
{
    let o = chars_of(original);
    let (_, managed, _) = region_parts(o.as_slice())?;
    let mut lines: Vec<char> = Vec::new();
    let mut i: usize = 0;
    while i < entries.len()
        invariant
            i <= entries@.len(),
            lines@ == log_lines(entries@.take(i as int)),
        decreases entries@.len() - i,
    {
        proof {
            assert(entries@.take(i + 1).drop_last() =~= entries@.take(i as int));
        }
        if i > 0 {
            lines.push('\n');
        }
        push_log_line(&mut lines, &entries[i]);
        i = i + 1;
        proof {
            if i == 1 {
                assert(entries@.take(1)[0] == entries@[0]);
            }
        }
    }
    proof {
        assert(entries@.take(entries@.len() as int) =~= entries@);
    }
    let mut heading: Vec<char> = Vec::new();
    heading.push('#');
    heading.push('#');
    heading.push(' ');
    let d = chars_of(date);
    append_chars(&mut heading, d.as_slice());
    let mut body = heading.clone();
    body.push('\n');
    append_chars(&mut body, lines.as_slice());
    let whole = trimmed(managed.as_slice());
    let lead = trim_start_index(managed.as_slice());
    let normalized = slice_vec(managed.as_slice(), lead, managed.len());
    proof {
        assert(normalized@ =~= trim_start(managed@));
    }
    if whole.len() == 0 {
    } else if starts_with_exec(normalized.as_slice(), heading.as_slice()) {
        let split = match find_char(normalized.as_slice(), '\n') {
            Some(s) => s,
            None => normalized.len(),
        };
        proof {
            lemma_index_of(normalized@, '\n', split as int);
        }
        let after = slice_vec(normalized.as_slice(), split, normalized.len());
        proof {
            assert(after@ =~= if index_of(normalized@, '\n') < 0 { Seq::<char>::empty() } else { normalized@.skip(index_of(normalized@, '\n')) });
        }
        append_chars(&mut body, after.as_slice());
    } else {
        body.push('\n');
        body.push('\n');
        append_chars(&mut body, whole.as_slice());
    }
    let k = trim_end_index(body.as_slice());
    let new_managed = slice_vec(body.as_slice(), 0, k);
    proof {
        let h = seq!['#', '#', ' '] + date@;
        assert(heading@ =~= h);
        let m = managed@;
        let ls = log_lines(entries@);
        let expected = if trim(m).len() == 0 {
            h + seq!['\n'] + ls
        } else if starts_with(trim_start(m), h) {
            let nz = trim_start(m);
            let sp = index_of(nz, '\n');
            let af = if sp < 0 { Seq::empty() } else { nz.skip(sp) };
            h + seq!['\n'] + ls + af
        } else {
            h + seq!['\n'] + ls + seq!['\n', '\n'] + trim(m)
        };
        assert(body@ =~= expected);
        assert(new_managed@ == log_body(m, date@, entries@));
    }
    let out = replace_region(o.as_slice(), new_managed.as_slice())?;
    Ok(string_of(out.as_slice()))
}

} // verus!
