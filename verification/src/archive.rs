//! Archive entry names and references inside EPUB and DOCX packages, and a
//! size-bounded view of a ZIP archive.
use vstd::prelude::*;
use std::io::{Cursor, Read};
use zip::ZipArchive;
use crate::text::{append_chars, chars_of, contains_char, find_char, join, join_chars, slice_vec, starts_with, string_of, vviews};

verus! {

#[verifier::external_type_specification]
#[verifier::external_body]
#[verifier::reject_recursive_types(T)]
pub struct ExCursor<T>(Cursor<T>);

#[verifier::external_type_specification]
#[verifier::external_body]
#[verifier::reject_recursive_types(R)]
pub struct ExZipArchive<R>(ZipArchive<R>);

/// A path of `/`-separated segments, normalized: empty and `.` segments
/// vanish and `..` removes the segment before it.
pub open spec fn norm_step(acc: Result<Seq<Seq<char>>, Seq<char>>, seg: Seq<char>) -> Result<Seq<Seq<char>>, Seq<char>> {
    match acc {
        Err(e) => Err(e),
        Ok(parts) => if seg.len() == 0 || seg == "."@ {
            Ok(parts)
        } else if seg == ".."@ {
            if parts.len() == 0 {
                Err("Archive path escapes its root."@)
            } else {
                Ok(parts.drop_last())
            }
        } else {
            Ok(parts.push(seg))
        },
    }
}

/// The normalized segments so far, and the segment being read.
pub open spec fn norm_state(s: Seq<char>) -> (Result<Seq<Seq<char>>, Seq<char>>, Seq<char>)
    decreases s.len(),
{
    if s.len() == 0 {
        (Ok(Seq::empty()), Seq::empty())
    } else {
        let (acc, cur) = norm_state(s.drop_last());
        if s.last() == '/' {
            (norm_step(acc, cur), Seq::empty())
        } else {
            (acc, cur.push(s.last()))
        }
    }
}

/// A relative archive path in normal form, or why it has none.
pub open spec fn normalized(s: Seq<char>) -> Result<Seq<char>, Seq<char>> {
    if s.len() > 0 && s[0] == '/' {
        Err("Archive path must be relative."@)
    } else {
        let (acc, cur) = norm_state(s);
        match norm_step(acc, cur) {
            Err(e) => Err(e),
            Ok(parts) => if parts.len() == 0 {
                Err("Archive path is empty."@)
            } else {
                Ok(join(parts, "/"@))
            },
        }
    }
}

fn is_dot(seg: &Vec<char>) -> (b: bool)
    ensures
        b == (seg@ == "."@),
{
    let d = chars_of(".");
    crate::text::equal_chars(seg.as_slice(), d.as_slice())
}

fn is_dot_dot(seg: &Vec<char>) -> (b: bool)
    ensures
        b == (seg@ == ".."@),
{
    let d = chars_of("..");
    crate::text::equal_chars(seg.as_slice(), d.as_slice())
}

fn step_exec(parts: &mut Vec<Vec<char>>, seg: Vec<char>) -> (ok: bool)
    ensures
        ok ==> norm_step(Ok(vviews(old(parts)@)), seg@) == Ok::<Seq<Seq<char>>, Seq<char>>(vviews(final(parts)@)),
        !ok ==> norm_step(Ok(vviews(old(parts)@)), seg@) == Err::<Seq<Seq<char>>, Seq<char>>("Archive path escapes its root."@),
{
    if seg.len() == 0 || is_dot(&seg) {
        return true;
    }
    if is_dot_dot(&seg) {
        if parts.len() == 0 {
            return false;
        }
        let ghost before = parts@;
        parts.pop();
        proof {
            assert(vviews(parts@) =~= vviews(before).drop_last());
        }
        return true;
    }
    let ghost before = parts@;
    parts.push(seg);
    proof {
        assert(vviews(parts@) =~= vviews(before).push(seg@));
    }
    true
}

/// The normal form of a relative archive path (see `normalized`).
pub fn normalize(path: &[char]) -> (r: Result<Vec<char>, String>)
    ensures
        match r {
            Ok(v) => normalized(path@) == Ok::<Seq<char>, Seq<char>>(v@),
            Err(e) => normalized(path@) == Err::<Seq<char>, Seq<char>>(e@),
        },
{
    if path.len() > 0 && path[0] == '/' {
        return Err("Archive path must be relative.".to_owned());
    }
    let mut parts: Vec<Vec<char>> = Vec::new();
    let mut cur: Vec<char> = Vec::new();
    let mut i: usize = 0;
    proof {
        assert(path@.take(0) =~= Seq::<char>::empty());
        assert(vviews(parts@) =~= Seq::<Seq<char>>::empty());
    }
    while i < path.len()
        invariant
            i <= path@.len(),
            !(path@.len() > 0 && path@[0] == '/'),
            (Ok::<Seq<Seq<char>>, Seq<char>>(vviews(parts@)), cur@) == norm_state(path@.take(i as int)),
        decreases path@.len() - i,
    {
        proof {
            assert(path@.take(i + 1).drop_last() =~= path@.take(i as int));
            assert(path@.take(i + 1).last() == path@[i as int]);
        }
        if path[i] == '/' {
            let seg = cur;
            cur = Vec::new();
            if !step_exec(&mut parts, seg) {
                proof {
                    lemma_norm_error_stays(path@, i as int + 1);
                }
                return Err("Archive path escapes its root.".to_owned());
            }
            proof {
                assert(cur@ =~= Seq::<char>::empty());
            }
        } else {
            cur.push(path[i]);
        }
        i = i + 1;
    }
    proof {
        assert(path@.take(path@.len() as int) =~= path@);
    }
    if !step_exec(&mut parts, cur) {
        return Err("Archive path escapes its root.".to_owned());
    }
    if parts.len() == 0 {
        return Err("Archive path is empty.".to_owned());
    }
    Ok(join_chars(&parts, chars_of("/").as_slice()))
}

proof fn lemma_norm_error_stays(s: Seq<char>, k: int)
    requires
        0 <= k <= s.len(),
        norm_state(s.take(k)).0 is Err,
    ensures
        norm_state(s).0 == norm_state(s.take(k)).0,
        norm_step(norm_state(s).0, norm_state(s).1) == norm_state(s.take(k)).0,
    decreases s.len() - k,
{
    if k < s.len() {
        assert(s.take(k + 1).drop_last() =~= s.take(k));
        lemma_norm_error_stays(s, k + 1);
    } else {
        assert(s.take(k) =~= s);
    }
}

/// The index of the last `c` in `s`, or -1.
pub open spec fn last_index(s: Seq<char>, c: char) -> int
    decreases s.len(),
{
    if s.len() == 0 {
        -1
    } else if s.last() == c {
        s.len() - 1
    } else {
        last_index(s.drop_last(), c)
    }
}

pub(crate) fn last_index_exec(s: &[char], c: char) -> (r: Option<usize>)
    ensures
        match r {
            Some(i) => last_index(s@, c) == i && i < s@.len(),
            None => last_index(s@, c) == -1,
        },
{
    let mut k: usize = s.len();
    proof {
        assert(s@.take(s@.len() as int) =~= s@);
    }
    while k > 0
        invariant
            k <= s@.len(),
            last_index(s@, c) == last_index(s@.take(k as int), c),
        decreases k,
    {
        proof {
            assert(s@.take(k as int).drop_last() =~= s@.take(k - 1));
            assert(s@.take(k as int).last() == s@[k - 1]);
        }
        if s[k - 1] == c {
            return Some(k - 1);
        }
        k = k - 1;
    }
    None
}

/// The directory part of an archive path: what comes before its last `/`.
pub open spec fn parent_dir(f: Seq<char>) -> Seq<char> {
    let i = last_index(f, '/');
    if i < 0 { Seq::empty() } else { f.take(i) }
}

/// A reference resolved against the file that makes it: references with a
/// scheme, an absolute path or a backslash stay as they are; others are
/// joined to the file's directory and normalized, keeping a `#` fragment.
pub open spec fn resolved(base_file: Seq<char>, reference: Seq<char>) -> Result<Seq<char>, Seq<char>> {
    let h = crate::text::index_of(reference, '#');
    let path = if h < 0 { reference } else { reference.take(h) };
    if path.contains(':') || (path.len() > 0 && path[0] == '/') || path.contains('\\') {
        Ok(reference)
    } else {
        let parent = parent_dir(base_file);
        let joined = if path.len() == 0 {
            base_file
        } else if parent.len() == 0 {
            path
        } else {
            parent + "/"@ + path
        };
        match normalized(joined) {
            Err(e) => Err(e),
            Ok(n) => Ok(if h < 0 { n } else { n + "#"@ + reference.skip(h + 1) }),
        }
    }
}

/// Resolve a reference made inside `base_file` (see `resolved`).
pub fn resolve(base_file: &str, reference: &str) -> (r: Result<String, String>)
    ensures
        match r {
            Ok(v) => resolved(base_file@, reference@) == Ok::<Seq<char>, Seq<char>>(v@),
            Err(e) => resolved(base_file@, reference@) == Err::<Seq<char>, Seq<char>>(e@),
        },
{
    let rc = chars_of(reference);
    let bc = chars_of(base_file);
    let hash = find_char(rc.as_slice(), '#');
    let ghost hash0 = hash;
    proof {
        match hash {
            Some(i) => crate::text::lemma_index_of(rc@, '#', i as int),
            None => crate::text::lemma_index_of(rc@, '#', rc@.len() as int),
        }
    }
    let path = match hash {
        Some(i) => slice_vec(rc.as_slice(), 0, i),
        None => rc.clone(),
    };
    proof {
        match hash {
            Some(i) => assert(path@ =~= rc@.take(i as int)),
            None => assert(path@ =~= rc@),
        }
    }
    if contains_char(path.as_slice(), ':') || (path.len() > 0 && path[0] == '/') || contains_char(path.as_slice(), '\\') {
        return Ok(reference.to_owned());
    }
    let parent = match last_index_exec(bc.as_slice(), '/') {
        Some(i) => slice_vec(bc.as_slice(), 0, i),
        None => Vec::new(),
    };
    proof {
        if last_index(bc@, '/') >= 0 {
            assert(parent@ =~= bc@.take(last_index(bc@, '/')));
        } else {
            assert(parent@ =~= Seq::<char>::empty());
        }
    }
    let joined = if path.len() == 0 {
        bc.clone()
    } else if parent.len() == 0 {
        path
    } else {
        let mut j = parent;
        append_chars(&mut j, chars_of("/").as_slice());
        append_chars(&mut j, path.as_slice());
        j
    };
    let n = match normalize(joined.as_slice()) {
        Ok(n) => n,
        Err(e) => {
            return Err(e);
        },
    };
    match hash {
        None => Ok(string_of(n.as_slice())),
        Some(i) => {
            proof {
                assert(hash0 == Some(i));
            }
            let total: usize = rc.len();
            proof {
                assert(i < total);
            }
            let mut out = n;
            append_chars(&mut out, chars_of("#").as_slice());
            let frag = slice_vec(rc.as_slice(), i + 1, rc.len());
            proof {
                assert(frag@ =~= rc@.skip(i + 1));
            }
            append_chars(&mut out, frag.as_slice());
            Ok(string_of(out.as_slice()))
        },
    }
}

/// An archive entry's name in normal form, or why it is unsafe.
pub open spec fn safe_entry_name(name: Seq<char>, format: Seq<char>) -> Result<Seq<char>, Seq<char>> {
    if name.len() == 0 || name[0] == '/' || name.contains('\\') {
        Err(format + " archive contains an unsafe entry name."@)
    } else {
        match normalized(name) {
            Ok(n) => Ok(n),
            Err(_) => Err(format + " archive contains an unsafe entry name: "@ + name),
        }
    }
}

fn safe_name(name: &str, format: &str) -> (r: Result<Vec<char>, String>)
    ensures
        match r {
            Ok(v) => safe_entry_name(name@, format@) == Ok::<Seq<char>, Seq<char>>(v@),
            Err(e) => safe_entry_name(name@, format@) == Err::<Seq<char>, Seq<char>>(e@),
        },
{
    let n = chars_of(name);
    if n.len() == 0 || n[0] == '/' || contains_char(n.as_slice(), '\\') {
        let mut m = chars_of(format);
        append_chars(&mut m, chars_of(" archive contains an unsafe entry name.").as_slice());
        return Err(string_of(m.as_slice()));
    }
    match normalize(n.as_slice()) {
        Ok(v) => Ok(v),
        Err(_) => {
            let mut m = chars_of(format);
            append_chars(&mut m, chars_of(" archive contains an unsafe entry name: ").as_slice());
            append_chars(&mut m, n.as_slice());
            Err(string_of(m.as_slice()))
        },
    }
}

/// One archive entry as the ZIP reader reports it: whether it is encrypted,
/// whether it is a directory, its name (or why the name cannot be read) and
/// its uncompressed size; or why the entry cannot be opened.
pub type EntryInfo = Result<(bool, bool, Result<Seq<char>, Seq<char>>, u64), Seq<char>>;

/// The bytes an entry's stream yields before it ends or fails, and the
/// failure if it fails.
pub type EntryStream = (Seq<u8>, Option<Seq<char>>);

/// What an opened ZIP archive holds, entry by entry.
pub uninterp spec fn zip_contents(archive: ZipArchive<Cursor<Vec<u8>>>) -> Seq<(EntryInfo, EntryStream)>;

/// What opening the bytes as a ZIP archive gives: the entries, or the reader's message.
pub uninterp spec fn zip_opened(bytes: Seq<u8>) -> Result<Seq<(EntryInfo, EntryStream)>, Seq<char>>;

/// `zip::ZipArchive::new` over the bytes: the archive, whose contents are
/// those of `zip_opened`, or the reader's message.
#[verifier::external_body]
fn zip_open(bytes: Vec<u8>) -> (r: Result<ZipArchive<Cursor<Vec<u8>>>, String>)
    ensures
        match r {
            Ok(a) => zip_opened(bytes@) == Ok::<Seq<(EntryInfo, EntryStream)>, Seq<char>>(zip_contents(a)),
            Err(e) => zip_opened(bytes@) == Err::<Seq<(EntryInfo, EntryStream)>, Seq<char>>(e@),
        },
{
    ZipArchive::new(Cursor::new(bytes)).map_err(|error| error.to_string())
}

/// `zip::ZipArchive::len`: the number of entries.
#[verifier::external_body]
fn zip_len(archive: &ZipArchive<Cursor<Vec<u8>>>) -> (n: usize)
    ensures
        n == zip_contents(*archive).len(),
{
    archive.len()
}

/// An entry's facts, as plain values.
pub struct ZipEntryFacts {
    pub encrypted: bool,
    pub is_dir: bool,
    pub name: Result<String, String>,
    pub size: u64,
}

pub open spec fn facts_view(f: ZipEntryFacts) -> (bool, bool, Result<Seq<char>, Seq<char>>, u64) {
    (f.encrypted, f.is_dir, match f.name { Ok(n) => Ok(n@), Err(e) => Err(e@) }, f.size)
}

/// `zip::ZipArchive::by_index`, reporting the entry's facts; the archive's
/// contents do not change.
#[verifier::external_body]
fn zip_entry(archive: &mut ZipArchive<Cursor<Vec<u8>>>, index: usize) -> (r: Result<ZipEntryFacts, String>)
    requires
        index < zip_contents(*old(archive)).len(),
    ensures
        zip_contents(*final(archive)) == zip_contents(*old(archive)),
        match r {
            Ok(f) => zip_contents(*old(archive))[index as int].0 == Ok::<(bool, bool, Result<Seq<char>, Seq<char>>, u64), Seq<char>>(facts_view(f)),
            Err(e) => zip_contents(*old(archive))[index as int].0 == Err::<(bool, bool, Result<Seq<char>, Seq<char>>, u64), Seq<char>>(e@),
        },
{
    match archive.by_index(index) {
        Ok(file) => Ok(ZipEntryFacts {
            encrypted: file.encrypted(),
            is_dir: file.is_dir(),
            name: file.name().map(|n| n.into_owned()).map_err(|error| error.to_string()),
            size: file.size(),
        }),
        Err(error) => Err(error.to_string()),
    }
}

/// What reading at most `limit` bytes of a stream may give: a prefix of
/// what the stream yields, as long as the limit or the whole of it, or the
/// stream's failure. Which of the two a failing stream gives depends on how
/// its decompressor reports the failure, which is not stated.
pub open spec fn read_allows(stream: EntryStream, limit: nat, r: Result<Seq<u8>, Seq<char>>) -> bool {
    match r {
        Ok(d) => d == stream.0.take(if stream.0.len() < limit { stream.0.len() as int } else { limit as int }),
        Err(e) => stream.1 == Some(e),
    }
}

pub open spec fn bytes_result(r: Result<Vec<u8>, String>) -> Result<Seq<u8>, Seq<char>> {
    match r {
        Ok(d) => Ok(d@),
        Err(e) => Err(e@),
    }
}

/// `zip::ZipArchive::by_index`, then `Read::take` and `read_to_end` on the
/// entry: at most `limit` bytes of its stream (see `read_allows`).
#[verifier::external_body]
fn zip_read(archive: &mut ZipArchive<Cursor<Vec<u8>>>, index: usize, limit: u64) -> (r: Result<Vec<u8>, String>)
    requires
        index < zip_contents(*old(archive)).len(),
        zip_contents(*old(archive))[index as int].0 is Ok,
    ensures
        zip_contents(*final(archive)) == zip_contents(*old(archive)),
        read_allows(zip_contents(*old(archive))[index as int].1, limit as nat, bytes_result(r)),
{
    let mut data = Vec::new();
    match archive.by_index(index) {
        Ok(file) => match file.take(limit).read_to_end(&mut data) {
            Ok(_) => Ok(data),
            Err(error) => Err(error.to_string()),
        },
        Err(error) => Err(error.to_string()),
    }
}

/// The most entries an archive may have.
pub const MAX_ENTRIES: usize = 4096;
/// The most bytes one entry may expand to.
pub const MAX_ENTRY_BYTES: u64 = 16777216;
/// The most bytes all entries together may declare.
pub const MAX_EXPANDED_BYTES: u64 = 67108864;

/// Entries kept so far with the bytes declared so far, or the first error.
pub type OpenAcc = Result<(Seq<(Seq<char>, Seq<u8>)>, nat), Seq<char>>;

pub open spec fn has_name(entries: Seq<(Seq<char>, Seq<u8>)>, n: Seq<char>) -> bool {
    exists|i: int| 0 <= i < entries.len() && (#[trigger] entries[i]).0 == n
}

/// The bytes of the first entry called `name`, if there is one.
pub open spec fn named_entry(entries: Seq<(Seq<char>, Seq<u8>)>, name: Seq<char>) -> Option<Seq<u8>>
    decreases entries.len(),
{
    if entries.len() == 0 {
        None
    } else if entries[0].0 == name {
        Some(entries[0].1)
    } else {
        named_entry(entries.drop_first(), name)
    }
}

proof fn lemma_named_entry_found(entries: Seq<(Seq<char>, Seq<u8>)>, name: Seq<char>, i: int)
    requires
        0 <= i < entries.len(),
        entries[i].0 == name,
        forall|j: int| 0 <= j < i ==> entries[j].0 != name,
    ensures
        named_entry(entries, name) == Some(entries[i].1),
    decreases i,
{
    if i > 0 {
        assert(entries[0].0 != name);
        let rest = entries.drop_first();
        assert forall|j: int| 0 <= j < i - 1 implies rest[j].0 != name by {
            assert(rest[j] == entries[j + 1]);
        }
        lemma_named_entry_found(rest, name, i - 1);
    }
}

proof fn lemma_named_entry_absent(entries: Seq<(Seq<char>, Seq<u8>)>, name: Seq<char>)
    requires
        !has_name(entries, name),
    ensures
        named_entry(entries, name) is None,
    decreases entries.len(),
{
    if entries.len() > 0 {
        assert(entries[0].0 != name);
        let rest = entries.drop_first();
        assert(!has_name(rest, name)) by {
            if has_name(rest, name) {
                let j = choose|j: int| 0 <= j < rest.len() && (#[trigger] rest[j]).0 == name;
                assert(entries[j + 1] == rest[j]);
            }
        }
        lemma_named_entry_absent(rest, name);
    }
}

/// One entry of `open_entries`: directories are skipped; a file needs a safe
/// name, a declared size within the entry limit, a total within the
/// expansion limit, a read of its stream (`read`) within the entry limit,
/// and a name not seen before.
pub open spec fn open_step(
    acc: OpenAcc,
    entry: (EntryInfo, EntryStream),
    read: Result<Seq<u8>, Seq<char>>,
    format: Seq<char>,
) -> OpenAcc {
    match acc {
        Err(e) => Err(e),
        Ok((entries, expanded)) => match entry.0 {
            Err(e) => Err("Cannot read "@ + format + " archive entry: "@ + e),
            Ok((encrypted, is_dir, name, size)) => if encrypted {
                Err("Encrypted "@ + format + " archive entries are unsupported."@)
            } else if is_dir {
                Ok((entries, expanded))
            } else {
                match name {
                    Err(e) => Err("Cannot read "@ + format + " archive entry: "@ + e),
                    Ok(raw) => match safe_entry_name(raw, format) {
                        Err(e) => Err(e),
                        Ok(n) => if size > MAX_ENTRY_BYTES {
                            Err(format + " archive entry size limit exceeded: "@ + n)
                        } else if expanded + size > MAX_EXPANDED_BYTES {
                            Err(format + " archive expansion limit exceeded."@)
                        } else {
                            match read {
                                Err(e) => Err("Cannot expand "@ + format + " archive entry "@ + n + ": "@ + e),
                                Ok(d) => if d.len() > MAX_ENTRY_BYTES {
                                    Err(format + " archive entry size limit exceeded: "@ + n)
                                } else if has_name(entries, n) {
                                    Err(format + " archive contains duplicate entry: "@ + n)
                                } else {
                                    Ok((entries.push((n, d)), (expanded + size) as nat))
                                },
                            }
                        },
                    },
                }
            },
        },
    }
}

/// The entries in order, each read as `reads` says at its position.
pub open spec fn open_fold(contents: Seq<(EntryInfo, EntryStream)>, reads: Seq<Result<Seq<u8>, Seq<char>>>, format: Seq<char>) -> OpenAcc
    decreases contents.len(),
{
    if contents.len() == 0 {
        Ok((Seq::empty(), 0))
    } else {
        open_step(open_fold(contents.drop_last(), reads, format), contents.last(), reads[contents.len() - 1], format)
    }
}

/// Each entry's read is one its stream allows, reading one byte past the
/// entry limit.
pub open spec fn reads_allowed(contents: Seq<(EntryInfo, EntryStream)>, reads: Seq<Result<Seq<u8>, Seq<char>>>) -> bool {
    reads.len() == contents.len() && forall|i: int|
        0 <= i < contents.len() ==> read_allows(contents[i].1, MAX_ENTRY_BYTES as nat + 1, #[trigger] reads[i])
}

/// The files of an archive by normal name, in archive order, or the first
/// reason to refuse it.
pub open spec fn open_entries(
    opened: Result<Seq<(EntryInfo, EntryStream)>, Seq<char>>,
    reads: Seq<Result<Seq<u8>, Seq<char>>>,
    format: Seq<char>,
) -> Result<Seq<(Seq<char>, Seq<u8>)>, Seq<char>> {
    match opened {
        Err(e) => Err("Cannot open "@ + format + " archive: "@ + e),
        Ok(contents) => if contents.len() > MAX_ENTRIES {
            Err(format + " archive entry limit exceeded."@)
        } else {
            match open_fold(contents, reads, format) {
                Err(e) => Err(e),
                Ok((entries, _)) => Ok(entries),
            }
        },
    }
}

/// What opening the bytes as an archive may give (see `open_entries`), for
/// some reads of its entries that their streams allow.
pub open spec fn archive_opens(bytes: Seq<u8>, format: Seq<char>, r: Result<Seq<(Seq<char>, Seq<u8>)>, Seq<char>>) -> bool {
    exists|reads: Seq<Result<Seq<u8>, Seq<char>>>|
        #![trigger open_entries(zip_opened(bytes), reads, format)]
        (zip_opened(bytes) matches Ok(c) ==> reads_allowed(c, reads)) && open_entries(zip_opened(bytes), reads, format)
            == r
}

/// The read of a stream that gives every byte up to the limit.
pub open spec fn full_read(stream: EntryStream) -> Result<Seq<u8>, Seq<char>> {
    Ok(stream.0.take(
        if stream.0.len() < MAX_ENTRY_BYTES as nat + 1 { stream.0.len() as int } else { MAX_ENTRY_BYTES as int + 1 },
    ))
}

proof fn lemma_fold_reads(contents: Seq<(EntryInfo, EntryStream)>, a: Seq<Result<Seq<u8>, Seq<char>>>, b: Seq<Result<Seq<u8>, Seq<char>>>, format: Seq<char>, k: int)
    requires
        0 <= k <= contents.len(),
        k <= a.len(),
        k <= b.len(),
        forall|i: int| 0 <= i < k ==> a[i] == b[i],
    ensures
        open_fold(contents.take(k), a, format) == open_fold(contents.take(k), b, format),
    decreases k,
{
    if k > 0 {
        assert(contents.take(k).drop_last() =~= contents.take(k - 1));
        lemma_fold_reads(contents, a, b, format, k - 1);
    }
}

/// The files of an archive, each within the size limits, with distinct names.
pub struct BoundedArchive {
    entries: Vec<(String, Vec<u8>)>,
}

pub open spec fn entry_views(v: Seq<(String, Vec<u8>)>) -> Seq<(Seq<char>, Seq<u8>)> {
    v.map_values(|e: (String, Vec<u8>)| (e.0@, e.1@))
}

impl View for BoundedArchive {
    type V = Seq<(Seq<char>, Seq<u8>)>;

    closed spec fn view(&self) -> Seq<(Seq<char>, Seq<u8>)> {
        entry_views(self.entries@)
    }
}

fn prefixed_message(a: &str, b: &str, c: &[char]) -> (m: String)
    ensures
        m@ == a@ + b@ + c@,
{
    let mut v = chars_of(a);
    append_chars(&mut v, chars_of(b).as_slice());
    append_chars(&mut v, c);
    string_of(v.as_slice())
}

fn contains_name(entries: &Vec<(String, Vec<u8>)>, name: &Vec<char>) -> (b: bool)
    ensures
        b == has_name(entry_views(entries@), name@),
{
    let mut k: usize = 0;
    while k < entries.len()
        invariant
            k <= entries@.len(),
            forall|j: int| 0 <= j < k ==> (#[trigger] entries@[j]).0@ != name@,
        decreases entries@.len() - k,
    {
        let c = chars_of(entries[k].0.as_str());
        if crate::text::equal_chars(c.as_slice(), name.as_slice()) {
            proof {
                assert(entry_views(entries@)[k as int].0 == name@);
            }
            return true;
        }
        k = k + 1;
    }
    proof {
        if has_name(entry_views(entries@), name@) {
            let j = choose|j: int| 0 <= j < entry_views(entries@).len() && (#[trigger] entry_views(entries@)[j]).0 == name@;
            assert(entries@[j].0@ == name@);
        }
    }
    false
}

impl BoundedArchive {
    /// Open the bytes as a ZIP archive and read its files (see `archive_opens`).
    pub fn open(bytes: Vec<u8>, format: &str) -> (r: Result<BoundedArchive, String>)
        ensures
            archive_opens(
                bytes@,
                format@,
                match r {
                    Ok(a) => Ok(a@),
                    Err(e) => Err(e@),
                },
            ),
    {
        let ghost input = bytes@;
        let mut archive = match zip_open(bytes) {
            Ok(a) => a,
            Err(e) => {
                let mut m = chars_of("Cannot open ");
                append_chars(&mut m, chars_of(format).as_slice());
                append_chars(&mut m, chars_of(" archive: ").as_slice());
                append_chars(&mut m, chars_of(e.as_str()).as_slice());
                proof {
                    assert(open_entries(zip_opened(input), Seq::empty(), format@) matches Err(x) && x == m@);
                }
                return Err(string_of(m.as_slice()));
            },
        };
        let ghost contents = zip_contents(archive);
        let ghost mut reads = Seq::new(contents.len(), |i: int| full_read(contents[i].1));
        proof {
            assert(reads_allowed(contents, reads));
        }
        let count = zip_len(&archive);
        if count > MAX_ENTRIES {
            let m = prefixed_message(format, " archive entry limit exceeded.", &[]);
            proof {
                assert(open_entries(zip_opened(input), reads, format@) matches Err(x) && x == m@);
            }
            return Err(m);
        }
        let mut entries: Vec<(String, Vec<u8>)> = Vec::new();
        let mut expanded: u64 = 0;
        let mut index: usize = 0;
        proof {
            assert(contents.take(0) =~= Seq::<(EntryInfo, EntryStream)>::empty());
            assert(entry_views(entries@) =~= Seq::<(Seq<char>, Seq<u8>)>::empty());
        }
        while index < count
            invariant
                index <= count,
                count == contents.len(),
                count <= MAX_ENTRIES,
                input == bytes@,
                zip_opened(input) == Ok::<Seq<(EntryInfo, EntryStream)>, Seq<char>>(contents),
                zip_contents(archive) == contents,
                reads_allowed(contents, reads),
                expanded <= MAX_EXPANDED_BYTES,
                open_fold(contents.take(index as int), reads, format@) == Ok::<(Seq<(Seq<char>, Seq<u8>)>, nat), Seq<char>>((entry_views(entries@), expanded as nat)),
            decreases count - index,
        {
            proof {
                assert(contents.take(index + 1).drop_last() =~= contents.take(index as int));
                assert(contents.take(index + 1).last() == contents[index as int]);
            }
            let facts = match zip_entry(&mut archive, index) {
                Ok(f) => f,
                Err(e) => {
                    let mut m = chars_of("Cannot read ");
                    append_chars(&mut m, chars_of(format).as_slice());
                    append_chars(&mut m, chars_of(" archive entry: ").as_slice());
                    append_chars(&mut m, chars_of(e.as_str()).as_slice());
                    proof {
                        lemma_open_fold_stays(input, contents, reads, format@, index + 1);
                    }
                    return Err(string_of(m.as_slice()));
                },
            };
            if facts.encrypted {
                proof {
                    lemma_open_fold_stays(input, contents, reads, format@, index + 1);
                }
                return Err(prefixed_message("Encrypted ", format, chars_of(" archive entries are unsupported.").as_slice()));
            }
            if facts.is_dir {
                index = index + 1;
                continue;
            }
            let raw = match &facts.name {
                Ok(n) => n,
                Err(e) => {
                    let mut m = chars_of("Cannot read ");
                    append_chars(&mut m, chars_of(format).as_slice());
                    append_chars(&mut m, chars_of(" archive entry: ").as_slice());
                    append_chars(&mut m, chars_of(e.as_str()).as_slice());
                    proof {
                        lemma_open_fold_stays(input, contents, reads, format@, index + 1);
                    }
                    return Err(string_of(m.as_slice()));
                },
            };
            let name = match safe_name(raw.as_str(), format) {
                Ok(n) => n,
                Err(e) => {
                    proof {
                        lemma_open_fold_stays(input, contents, reads, format@, index + 1);
                    }
                    return Err(e);
                },
            };
            if facts.size > MAX_ENTRY_BYTES {
                proof {
                    lemma_open_fold_stays(input, contents, reads, format@, index + 1);
                }
                return Err(prefixed_message(format, " archive entry size limit exceeded: ", name.as_slice()));
            }
            if facts.size > MAX_EXPANDED_BYTES - expanded {
                proof {
                    lemma_open_fold_stays(input, contents, reads, format@, index + 1);
                }
                return Err(prefixed_message(format, " archive expansion limit exceeded.", &[]));
            }
            expanded = expanded + facts.size;
            let read = zip_read(&mut archive, index, MAX_ENTRY_BYTES + 1);
            proof {
                let before = reads;
                reads = reads.update(index as int, bytes_result(read));
                lemma_fold_reads(contents, before, reads, format@, index as int);
                assert(reads_allowed(contents, reads));
            }
            let data = match read {
                Ok(d) => d,
                Err(e) => {
                    let mut m = chars_of("Cannot expand ");
                    append_chars(&mut m, chars_of(format).as_slice());
                    append_chars(&mut m, chars_of(" archive entry ").as_slice());
                    append_chars(&mut m, name.as_slice());
                    append_chars(&mut m, chars_of(": ").as_slice());
                    append_chars(&mut m, chars_of(e.as_str()).as_slice());
                    proof {
                        lemma_open_fold_stays(input, contents, reads, format@, index + 1);
                    }
                    return Err(string_of(m.as_slice()));
                },
            };
            if data.len() as u64 > MAX_ENTRY_BYTES {
                proof {
                    lemma_open_fold_stays(input, contents, reads, format@, index + 1);
                }
                return Err(prefixed_message(format, " archive entry size limit exceeded: ", name.as_slice()));
            }
            if contains_name(&entries, &name) {
                proof {
                    lemma_open_fold_stays(input, contents, reads, format@, index + 1);
                }
                return Err(prefixed_message(format, " archive contains duplicate entry: ", name.as_slice()));
            }
            let ns = string_of(name.as_slice());
            let ghost before = entries@;
            entries.push((ns, data));
            proof {
                assert(entry_views(entries@) =~= entry_views(before).push((name@, data@)));
            }
            index = index + 1;
        }
        proof {
            assert(contents.take(count as int) =~= contents);
            assert(open_entries(zip_opened(input), reads, format@) == Ok::<Seq<(Seq<char>, Seq<u8>)>, Seq<char>>(
                entry_views(entries@),
            ));
        }
        Ok(BoundedArchive { entries })
    }

    /// The bytes of the named file, or an error naming what is missing.
    pub fn required(&self, name: &str, format: &str) -> (r: Result<&Vec<u8>, String>)
        ensures
            match r {
                Ok(d) => exists|i: int| 0 <= i < self@.len() && (#[trigger] self@[i]) == (name@, d@)
                    && forall|j: int| 0 <= j < i ==> self@[j].0 != name@,
                Err(e) => !has_name(self@, name@) && e@ == format@ + " archive is missing "@ + name@ + "."@,
            },
            match r {
                Ok(d) => named_entry(self@, name@) == Some(d@),
                Err(_) => named_entry(self@, name@) is None,
            },
    {
        let key = name.to_owned();
        let mut i: usize = 0;
        while i < self.entries.len()
            invariant
                i <= self.entries@.len(),
                key@ == name@,
                forall|j: int| 0 <= j < i ==> (#[trigger] self.entries@[j]).0@ != name@,
            decreases self.entries@.len() - i,
        {
            if self.entries[i].0 == key {
                proof {
                    assert(self@[i as int] == (name@, self.entries@[i as int].1@));
                    assert forall|j: int| 0 <= j < i implies self@[j].0 != name@ by {
                        assert(self@[j].0 == self.entries@[j].0@);
                    }
                }
                proof {
                    lemma_named_entry_found(self@, name@, i as int);
                }
                return Ok(&self.entries[i].1);
            }
            i = i + 1;
        }
        proof {
            if has_name(self@, name@) {
                let j = choose|j: int| 0 <= j < self@.len() && (#[trigger] self@[j]).0 == name@;
                assert(self.entries@[j].0@ == name@);
            }
        }
        proof {
            lemma_named_entry_absent(self@, name@);
        }
        let mut m = chars_of(format);
        append_chars(&mut m, chars_of(" archive is missing ").as_slice());
        append_chars(&mut m, chars_of(name).as_slice());
        append_chars(&mut m, chars_of(".").as_slice());
        Err(string_of(m.as_slice()))
    }
}

proof fn lemma_open_fold_stays(
    bytes: Seq<u8>,
    contents: Seq<(EntryInfo, EntryStream)>,
    reads: Seq<Result<Seq<u8>, Seq<char>>>,
    format: Seq<char>,
    k: int,
)
    requires
        0 <= k <= contents.len(),
        contents.len() <= MAX_ENTRIES,
        zip_opened(bytes) == Ok::<Seq<(EntryInfo, EntryStream)>, Seq<char>>(contents),
        open_fold(contents.take(k), reads, format) is Err,
    ensures
        open_fold(contents, reads, format) == open_fold(contents.take(k), reads, format),
        open_entries(zip_opened(bytes), reads, format) == Err::<Seq<(Seq<char>, Seq<u8>)>, Seq<char>>(
            open_fold(contents.take(k), reads, format)->Err_0,
        ),
    decreases contents.len() - k,
{
    if k < contents.len() {
        assert(contents.take(k + 1).drop_last() =~= contents.take(k));
        lemma_open_fold_stays(bytes, contents, reads, format, k + 1);
    } else {
        assert(contents.take(k) =~= contents);
    }
}

} // verus!
