//! Which admitted entries become sources, and why others are skipped.
use vstd::prelude::*;
use crate::text::{append_chars, ascii_lower, chars_of, string_of, to_ascii_lower};

verus! {

/// An admitted path that was not read, with the reason.
#[derive(Debug, Clone)]
pub struct SkippedSource {
    pub path: String,
    pub reason: String,
}

/// The framework's own directories, compared without regard to ASCII case.
pub open spec fn is_framework(name: Seq<char>) -> bool {
    ascii_lower(name) == ".git"@ || ascii_lower(name) == ".kb"@
}

/// Whether a name is `.git` or `.kb` in any ASCII case.
pub fn framework_name(name: &str) -> (b: bool)
    ensures
        b == is_framework(name@),
{
    let l = to_ascii_lower(chars_of(name).as_slice());
    crate::text::equal_chars(l.as_slice(), chars_of(".git").as_slice())
        || crate::text::equal_chars(l.as_slice(), chars_of(".kb").as_slice())
}

/// What to do with one directory entry.
#[derive(Debug, Clone, PartialEq, Eq)]
pub enum EntryDecision {
    /// Skip it for the reason given.
    Skip(String),
    /// Walk into the directory.
    Descend,
    /// Read the file as a source.
    Read,
}

/// The decision for an entry, from what is known of it: links, the
/// framework's directories and (unless hidden files are included) hidden
/// names are skipped; then excluded paths; directories are walked; other
/// non-files are skipped; files are read when included.
pub open spec fn decision(
    name: Seq<char>,
    is_link: bool,
    include_hidden: bool,
    excluded: bool,
    is_dir: bool,
    is_file: bool,
    included: bool,
) -> Option<Seq<char>> {
    if is_link {
        Some("link"@)
    } else if is_framework(name) {
        Some("framework"@)
    } else if name.len() > 0 && name[0] == '.' && !include_hidden {
        Some("hidden"@)
    } else if excluded {
        Some("excluded"@)
    } else if is_dir {
        None
    } else if !is_file {
        Some("not_regular"@)
    } else if !included {
        Some("not_included"@)
    } else {
        None
    }
}

/// The decision for an entry (see `decision`; `None` there is a walk for a
/// directory and a read for a file).
pub fn decide_entry(
    name: &str,
    is_link: bool,
    include_hidden: bool,
    excluded: bool,
    is_dir: bool,
    is_file: bool,
    included: bool,
) -> (d: EntryDecision)
    ensures
        match decision(name@, is_link, include_hidden, excluded, is_dir, is_file, included) {
            Some(reason) => d matches EntryDecision::Skip(r) && r@ == reason,
            None => if !is_link && !is_framework(name@) && !(name@.len() > 0 && name@[0] == '.' && !include_hidden) && !excluded && is_dir {
                d == EntryDecision::Descend
            } else {
                d == EntryDecision::Read
            },
        },
{
    let n = chars_of(name);
    if is_link {
        EntryDecision::Skip("link".to_owned())
    } else if framework_name(name) {
        EntryDecision::Skip("framework".to_owned())
    } else if n.len() > 0 && n[0] == '.' && !include_hidden {
        EntryDecision::Skip("hidden".to_owned())
    } else if excluded {
        EntryDecision::Skip("excluded".to_owned())
    } else if is_dir {
        EntryDecision::Descend
    } else if !is_file {
        EntryDecision::Skip("not_regular".to_owned())
    } else if !included {
        EntryDecision::Skip("not_included".to_owned())
    } else {
        EntryDecision::Read
    }
}

/// A skipped entry, named by the admitted directory and its path inside it.
pub fn skipped(directory: &str, path: &str, reason: &str) -> (s: SkippedSource)
    ensures
        s.path@ == directory@ + "/"@ + path@,
        s.reason@ == reason@,
{
    let mut p = chars_of(directory);
    append_chars(&mut p, chars_of("/").as_slice());
    append_chars(&mut p, chars_of(path).as_slice());
    SkippedSource { path: string_of(p.as_slice()), reason: reason.to_owned() }
}

/// An admitted directory that is the framework's own is skipped whole.
pub fn framework_directory(path: &str) -> (r: Option<SkippedSource>)
    ensures
        r is Some <==> is_framework(path@),
        r matches Some(s) ==> s.path@ == path@ && s.reason@ == "framework"@,
{
    if framework_name(path) {
        Some(SkippedSource { path: path.to_owned(), reason: "framework".to_owned() })
    } else {
        None
    }
}

} // verus!
