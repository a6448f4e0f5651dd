//! Verifying a backup archive against its manifest: the entries it may hold,
//! the scope of a standard backup, and the sizes and digests of its files.
use vstd::prelude::*;
use crate::error::{ErrorCode, KbError};
use crate::text::{append_chars, chars_of, ends_with, ends_with_exec, equal_chars, split_char, split_on, starts_with, starts_with_exec, string_of, vviews};

verus! {

/// The most bytes the manifest entry may have.
pub const MAX_MANIFEST_BYTES: u64 = 16777216;

/// What is known of one ZIP entry: its name, its kind, its declared size, and
/// the size and SHA-256 of its bytes as read.
pub struct EntryFacts {
    pub name: String,
    pub is_file: bool,
    pub is_dir: bool,
    pub is_symlink: bool,
    pub size: u64,
    pub content_size: u64,
    pub content_sha256: String,
}

/// An entry as values.
pub struct EntryView {
    pub name: Seq<char>,
    pub is_file: bool,
    pub is_dir: bool,
    pub is_symlink: bool,
    pub size: u64,
    pub content_size: u64,
    pub content_sha256: Seq<char>,
}

pub open spec fn entry_view(e: EntryFacts) -> EntryView {
    EntryView {
        name: e.name@,
        is_file: e.is_file,
        is_dir: e.is_dir,
        is_symlink: e.is_symlink,
        size: e.size,
        content_size: e.content_size,
        content_sha256: e.content_sha256@,
    }
}

pub open spec fn entry_views(v: Seq<EntryFacts>) -> Seq<EntryView> {
    v.map_values(|e: EntryFacts| entry_view(e))
}

/// A file the manifest lists: its path, size and SHA-256.
pub struct ManifestFile {
    pub path: String,
    pub size: u64,
    pub sha256: String,
}

/// The message of a failed verification.
pub open spec fn failure_message(reason: Seq<char>) -> Seq<char> {
    "Backup verification failed: "@ + reason
}

/// The error of a backup that does not verify, with the reason.
pub fn invalid_archive(reason: &str) -> (e: KbError)
    ensures
        e.code == ErrorCode::BackupVerificationFailed,
        e.message@ == failure_message(reason@),
        !e.retryable,
        e.remediation@ == "Use an intact Knowledge-Brain backup and run verify again."@,
{
    let mut m = chars_of("Backup verification failed: ");
    append_chars(&mut m, chars_of(reason).as_slice());
    KbError::new(
        ErrorCode::BackupVerificationFailed,
        string_of(m.as_slice()).as_str(),
        false,
        "Use an intact Knowledge-Brain backup and run verify again.",
    )
}

/// The path an entry name stands for: a directory's name without its
/// trailing slash, which it must have; a file's name, which must not end in
/// one.
pub open spec fn archive_name(name: Seq<char>, directory: bool) -> Result<Seq<char>, Seq<char>> {
    if directory {
        if ends_with(name, "/"@) {
            Ok(name.drop_last())
        } else {
            Err("directory entry lacks trailing slash"@)
        }
    } else if ends_with(name, "/"@) {
        Err("file entry has a trailing slash"@)
    } else {
        Ok(name)
    }
}

/// The path of an archive entry (see `archive_name`).
pub fn parse_archive_name(name: &str, directory: bool) -> (r: Result<String, KbError>)
    ensures
        match archive_name(name@, directory) {
            Ok(p) => r matches Ok(v) && v@ == p,
            Err(reason) => r matches Err(e) && e.code == ErrorCode::BackupVerificationFailed && e.message@
                == failure_message(reason),
        },
{
    let c = chars_of(name);
    let slash = chars_of("/");
    let trailing = ends_with_exec(c.as_slice(), slash.as_slice());
    if directory {
        if trailing {
            proof {
                reveal_strlit("/");
                assert(c@.len() >= 1);
                assert(c@.take(c@.len() - 1) =~= c@.drop_last());
            }
            Ok(string_of(crate::text::slice_vec(c.as_slice(), 0, c.len() - 1).as_slice()))
        } else {
            Err(invalid_archive("directory entry lacks trailing slash"))
        }
    } else if trailing {
        Err(invalid_archive("file entry has a trailing slash"))
    } else {
        Ok(name.to_owned())
    }
}

/// The first problem of the entries, read in archive order: a repeated
/// name, a link or special entry, a manifest that is not a bounded regular
/// file, or a name that does not fit its kind.
pub open spec fn entry_problem(es: Seq<EntryView>, manifest: Seq<char>) -> Option<Seq<char>>
    decreases es.len(),
{
    if es.len() == 0 {
        None
    } else {
        match entry_problem(es.drop_last(), manifest) {
            Some(m) => Some(m),
            None => {
                let e = es.last();
                if exists|j: int| 0 <= j < es.len() - 1 && #[trigger] es[j].name == e.name {
                    Some("duplicate ZIP entry: "@ + e.name)
                } else if e.is_symlink || (!e.is_file && !e.is_dir) {
                    Some("special ZIP entry is forbidden: "@ + e.name)
                } else if e.name == manifest {
                    if !e.is_file || e.size > MAX_MANIFEST_BYTES {
                        Some(manifest + " is not a bounded regular file"@)
                    } else {
                        None
                    }
                } else {
                    match archive_name(e.name, e.is_dir) {
                        Err(m) => Some(m),
                        Ok(_) => None,
                    }
                }
            },
        }
    }
}

/// The index of the last entry named as the manifest, or -1.
pub open spec fn manifest_index(es: Seq<EntryView>, manifest: Seq<char>) -> int
    decreases es.len(),
{
    if es.len() == 0 {
        -1
    } else if es.last().name == manifest {
        es.len() - 1
    } else {
        manifest_index(es.drop_last(), manifest)
    }
}

proof fn lemma_entry_problem_stays(es: Seq<EntryView>, manifest: Seq<char>, i: int)
    requires
        0 <= i <= es.len(),
        entry_problem(es.take(i), manifest) is Some,
    ensures
        entry_problem(es, manifest) == entry_problem(es.take(i), manifest),
    decreases es.len() - i,
{
    if i < es.len() {
        assert(es.take(i + 1).drop_last() =~= es.take(i));
        lemma_entry_problem_stays(es, manifest, i + 1);
    } else {
        assert(es.take(i) =~= es);
    }
}

/// Check the entries of a backup (see `entry_problem`) and find its
/// manifest, the entry named `manifest_name`, which must be there.
pub fn scan_entries(entries: &Vec<EntryFacts>, manifest_name: &str) -> (r: Result<usize, KbError>)
    ensures
        match entry_problem(entry_views(entries@), manifest_name@) {
            Some(m) => r matches Err(e) && e.code == ErrorCode::BackupVerificationFailed && e.message@ == failure_message(m),
            None => if manifest_index(entry_views(entries@), manifest_name@) < 0 {
                r matches Err(e) && e.message@ == failure_message(manifest_name@ + " is missing"@)
            } else {
                r matches Ok(i) && i == manifest_index(entry_views(entries@), manifest_name@)
            },
        },
{
    let ghost ev = entry_views(entries@);
    let ghost mn = manifest_name@;
    let manifest = chars_of(manifest_name);
    let mut found: Option<usize> = None;
    let mut i: usize = 0;
    proof {
        assert(ev.take(0) =~= Seq::<EntryView>::empty());
    }
    while i < entries.len()
        invariant
            i <= entries@.len(),
            ev == entry_views(entries@),
            manifest@ == mn,
            mn == manifest_name@,
            entry_problem(ev.take(i as int), mn) is None,
            match found {
                Some(k) => manifest_index(ev.take(i as int), mn) == k && k < i,
                None => manifest_index(ev.take(i as int), mn) == -1,
            },
        decreases entries@.len() - i,
    {
        let ghost t = ev.take(i + 1);
        proof {
            assert(t.drop_last() =~= ev.take(i as int));
            assert(t.last() == ev[i as int]);
            assert(ev[i as int] == entry_view(entries@[i as int]));
        }
        let e = &entries[i];
        let name = chars_of(e.name.as_str());
        let mut j: usize = 0;
        let mut dup = false;
        while j < i && !dup
            invariant
                j <= i,
                i < entries@.len(),
                ev == entry_views(entries@),
                name@ == ev[i as int].name,
                dup ==> exists|x: int| 0 <= x < i && #[trigger] ev[x].name == ev[i as int].name,
                !dup ==> forall|x: int| 0 <= x < j ==> #[trigger] ev[x].name != ev[i as int].name,
            decreases i - j,
        {
            proof {
                assert(ev[j as int] == entry_view(entries@[j as int]));
            }
            if equal_chars(chars_of(entries[j].name.as_str()).as_slice(), name.as_slice()) {
                proof {
                    assert(ev[j as int].name == ev[i as int].name);
                }
                dup = true;
            }
            j = j + 1;
        }
        proof {
            if dup {
                let x = choose|x: int| 0 <= x < i && #[trigger] ev[x].name == ev[i as int].name;
                assert(t[x].name == t.last().name);
            } else {
                assert forall|x: int| 0 <= x < t.len() - 1 implies #[trigger] t[x].name != t.last().name by {
                    assert(t[x] == ev[x]);
                }
            }
        }
        if dup {
            let mut m = chars_of("duplicate ZIP entry: ");
            append_chars(&mut m, name.as_slice());
            proof {
                lemma_entry_problem_stays(ev, mn, i + 1);
            }
            return Err(invalid_archive(string_of(m.as_slice()).as_str()));
        }
        if e.is_symlink || (!e.is_file && !e.is_dir) {
            let mut m = chars_of("special ZIP entry is forbidden: ");
            append_chars(&mut m, name.as_slice());
            proof {
                lemma_entry_problem_stays(ev, mn, i + 1);
            }
            return Err(invalid_archive(string_of(m.as_slice()).as_str()));
        }
        if equal_chars(name.as_slice(), manifest.as_slice()) {
            if !e.is_file || e.size > MAX_MANIFEST_BYTES {
                proof {
                    lemma_entry_problem_stays(ev, mn, i + 1);
                }
                let mut m = manifest.clone();
                append_chars(&mut m, chars_of(" is not a bounded regular file").as_slice());
                return Err(invalid_archive(string_of(m.as_slice()).as_str()));
            }
            found = Some(i);
        } else {
            match parse_archive_name(e.name.as_str(), e.is_dir) {
                Err(err) => {
                    proof {
                        lemma_entry_problem_stays(ev, mn, i + 1);
                    }
                    return Err(err);
                },
                Ok(_) => {},
            }
        }
        i = i + 1;
    }
    proof {
        assert(ev.take(ev.len() as int) =~= ev);
    }
    match found {
        Some(k) => Ok(k),
        None => {
            let mut m = manifest.clone();
            append_chars(&mut m, chars_of(" is missing").as_slice());
            Err(invalid_archive(string_of(m.as_slice()).as_str()))
        },
    }
}

pub struct ManifestFileView {
    pub path: Seq<char>,
    pub size: u64,
    pub sha256: Seq<char>,
}

pub open spec fn manifest_file_views(v: Seq<ManifestFile>) -> Seq<ManifestFileView> {
    v.map_values(|f: ManifestFile| ManifestFileView { path: f.path@, size: f.size, sha256: f.sha256@ })
}

/// The entry names a manifest calls for: each directory with a trailing
/// slash, and each file.
pub open spec fn expected_names(dirs: Seq<Seq<char>>, files: Seq<ManifestFileView>) -> Set<Seq<char>> {
    Set::new(
        |n: Seq<char>|
            (exists|i: int| 0 <= i < dirs.len() && n == #[trigger] dirs[i] + "/"@) || (exists|i: int|
                0 <= i < files.len() && n == #[trigger] files[i].path),
    )
}

/// The entry names of an archive besides its manifest.
pub open spec fn actual_names(es: Seq<EntryView>, manifest: Seq<char>) -> Set<Seq<char>> {
    Set::new(|n: Seq<char>| n != manifest && exists|i: int| 0 <= i < es.len() && n == #[trigger] es[i].name)
}

/// The index of the first entry with a name, or -1.
pub open spec fn named_index(es: Seq<EntryView>, name: Seq<char>) -> int
    decreases es.len(),
{
    if es.len() == 0 {
        -1
    } else {
        let r = named_index(es.drop_last(), name);
        if r >= 0 {
            r
        } else if es.last().name == name {
            es.len() - 1
        } else {
            -1
        }
    }
}

/// The first listed file whose entry has another size, or whose bytes have
/// another size or digest, as the reason.
pub open spec fn file_problem(es: Seq<EntryView>, files: Seq<ManifestFileView>) -> Option<Seq<char>>
    decreases files.len(),
{
    if files.len() == 0 {
        None
    } else {
        match file_problem(es, files.drop_last()) {
            Some(m) => Some(m),
            None => {
                let f = files.last();
                let k = named_index(es, f.path);
                if k < 0 {
                    None
                } else if es[k].size != f.size {
                    Some("size mismatch for "@ + f.path)
                } else if es[k].content_size != f.size || es[k].content_sha256 != f.sha256 {
                    Some("hash mismatch for "@ + f.path)
                } else {
                    None
                }
            },
        }
    }
}

/// What is wrong with the entries against the manifest, if anything: other
/// entries than it calls for, or a file of another size or digest.
pub open spec fn manifest_problem(
    es: Seq<EntryView>,
    manifest: Seq<char>,
    dirs: Seq<Seq<char>>,
    files: Seq<ManifestFileView>,
) -> Option<Seq<char>> {
    if actual_names(es, manifest) != expected_names(dirs, files) {
        Some("ZIP entries do not exactly match "@ + manifest)
    } else {
        file_problem(es, files)
    }
}

proof fn lemma_named_index(es: Seq<EntryView>, name: Seq<char>)
    ensures
        -1 <= named_index(es, name) < es.len(),
        named_index(es, name) >= 0 ==> es[named_index(es, name)].name == name,
        named_index(es, name) == -1 ==> forall|i: int| 0 <= i < es.len() ==> #[trigger] es[i].name != name,
    decreases es.len(),
{
    if es.len() > 0 {
        lemma_named_index(es.drop_last(), name);
        if named_index(es, name) == -1 {
            assert forall|i: int| 0 <= i < es.len() implies #[trigger] es[i].name != name by {
                if i < es.len() - 1 {
                    assert(es.drop_last()[i].name != name);
                }
            }
        }
    }
}

fn named_index_exec(entries: &Vec<EntryFacts>, name: &[char]) -> (k: Option<usize>)
    ensures
        match k {
            Some(i) => named_index(entry_views(entries@), name@) == i,
            None => named_index(entry_views(entries@), name@) == -1,
        },
{
    let ghost ev = entry_views(entries@);
    let mut i: usize = 0;
    proof {
        assert(ev.take(0) =~= Seq::<EntryView>::empty());
    }
    while i < entries.len()
        invariant
            i <= entries@.len(),
            ev == entry_views(entries@),
            named_index(ev.take(i as int), name@) == -1,
        decreases entries@.len() - i,
    {
        proof {
            assert(ev.take(i + 1).drop_last() =~= ev.take(i as int));
            assert(ev.take(i + 1).last() == ev[i as int]);
            assert(ev[i as int] == entry_view(entries@[i as int]));
        }
        if equal_chars(chars_of(entries[i].name.as_str()).as_slice(), name) {
            proof {
                lemma_named_prefix(ev, name@, i as int + 1);
            }
            return Some(i);
        }
        i = i + 1;
    }
    proof {
        assert(ev.take(ev.len() as int) =~= ev);
    }
    None
}

proof fn lemma_named_prefix(es: Seq<EntryView>, name: Seq<char>, n: int)
    requires
        0 <= n <= es.len(),
        named_index(es.take(n), name) >= 0,
    ensures
        named_index(es, name) == named_index(es.take(n), name),
    decreases es.len() - n,
{
    if n < es.len() {
        assert(es.take(n + 1).drop_last() =~= es.take(n));
        lemma_named_prefix(es, name, n + 1);
    } else {
        assert(es.take(n) =~= es);
    }
}

fn expected_name(dirs: &Vec<String>, files: &Vec<ManifestFile>, n: &[char]) -> (b: bool)
    ensures
        b == expected_names(crate::text::views(dirs@), manifest_file_views(files@)).contains(n@),
{
    let ghost dv = crate::text::views(dirs@);
    let ghost fv = manifest_file_views(files@);
    let mut i: usize = 0;
    while i < dirs.len()
        invariant
            i <= dirs@.len(),
            dv == crate::text::views(dirs@),
            forall|k: int| 0 <= k < i ==> n@ != #[trigger] dv[k] + "/"@,
        decreases dirs@.len() - i,
    {
        let mut d = chars_of(dirs[i].as_str());
        append_chars(&mut d, chars_of("/").as_slice());
        if equal_chars(d.as_slice(), n) {
            proof {
                assert(n@ == dv[i as int] + "/"@);
            }
            return true;
        }
        i = i + 1;
    }
    let mut j: usize = 0;
    while j < files.len()
        invariant
            j <= files@.len(),
            dv == crate::text::views(dirs@),
            fv == manifest_file_views(files@),
            forall|k: int| 0 <= k < dirs@.len() ==> n@ != #[trigger] dv[k] + "/"@,
            forall|k: int| 0 <= k < j ==> n@ != #[trigger] fv[k].path,
        decreases files@.len() - j,
    {
        if equal_chars(chars_of(files[j].path.as_str()).as_slice(), n) {
            proof {
                assert(n@ == fv[j as int].path);
            }
            return true;
        }
        j = j + 1;
    }
    false
}

/// Check the entries against the directories and files of the manifest,
/// the entry named `manifest_name` (see `manifest_problem`).
pub fn match_manifest(
    entries: &Vec<EntryFacts>,
    manifest_name: &str,
    dirs: &Vec<String>,
    files: &Vec<ManifestFile>,
) -> (r: Result<(), KbError>)
    ensures
        match manifest_problem(entry_views(entries@), manifest_name@, crate::text::views(dirs@), manifest_file_views(files@)) {
            None => r is Ok,
            Some(m) => r matches Err(e) && e.code == ErrorCode::BackupVerificationFailed && e.message@ == failure_message(m),
        },
{
    let ghost ev = entry_views(entries@);
    let ghost dv = crate::text::views(dirs@);
    let ghost fv = manifest_file_views(files@);
    let ghost mn = manifest_name@;
    let manifest = chars_of(manifest_name);
    let mut mm = chars_of("ZIP entries do not exactly match ");
    append_chars(&mut mm, manifest.as_slice());
    let mismatch_text = string_of(mm.as_slice());
    let mismatch = mismatch_text.as_str();
    let mut i: usize = 0;
    while i < entries.len()
        invariant
            i <= entries@.len(),
            ev == entry_views(entries@),
            dv == crate::text::views(dirs@),
            fv == manifest_file_views(files@),
            manifest@ == mn,
            mn == manifest_name@,
            mismatch@ == "ZIP entries do not exactly match "@ + mn,
            forall|k: int| 0 <= k < i && ev[k].name != mn ==> expected_names(dv, fv).contains(#[trigger] ev[k].name),
        decreases entries@.len() - i,
    {
        proof {
            assert(ev[i as int] == entry_view(entries@[i as int]));
        }
        let n = chars_of(entries[i].name.as_str());
        proof {
            assert(n@ == ev[i as int].name);
        }
        if !equal_chars(n.as_slice(), manifest.as_slice()) && !expected_name(dirs, files, n.as_slice()) {
            proof {
                assert(actual_names(ev, mn).contains(n@));
                assert(!expected_names(dv, fv).contains(n@));
            }
            return Err(invalid_archive(mismatch));
        }
        i = i + 1;
    }
    let mut j: usize = 0;
    while j < dirs.len()
        invariant
            j <= dirs@.len(),
            ev == entry_views(entries@),
            dv == crate::text::views(dirs@),
            fv == manifest_file_views(files@),
            forall|k: int| 0 <= k < entries@.len() && ev[k].name != mn ==> expected_names(dv, fv).contains(#[trigger] ev[k].name),
            forall|k: int| 0 <= k < j ==> actual_names(ev, mn).contains(#[trigger] dv[k] + "/"@),
            manifest@ == mn,
            mn == manifest_name@,
            mismatch@ == "ZIP entries do not exactly match "@ + mn,
        decreases dirs@.len() - j,
    {
        let mut d = chars_of(dirs[j].as_str());
        append_chars(&mut d, chars_of("/").as_slice());
        proof {
            lemma_named_index(ev, d@);
            assert(dv[j as int] == dirs@[j as int]@);
            assert(d@ == dv[j as int] + "/"@);
        }
        let found = named_index_exec(entries, d.as_slice());
        let is_manifest = equal_chars(d.as_slice(), manifest.as_slice());
        if found.is_none() || is_manifest {
            proof {
                assert(expected_names(dv, fv).contains(d@));
                assert(!actual_names(ev, mn).contains(d@));
            }
            return Err(invalid_archive(mismatch));
        }
        proof {
            let k = named_index(ev, d@);
            assert(ev[k].name == d@);
            assert(actual_names(ev, mn).contains(d@));
        }
        j = j + 1;
    }
    let mut f: usize = 0;
    while f < files.len()
        invariant
            f <= files@.len(),
            ev == entry_views(entries@),
            dv == crate::text::views(dirs@),
            fv == manifest_file_views(files@),
            forall|k: int| 0 <= k < entries@.len() && ev[k].name != mn ==> expected_names(dv, fv).contains(#[trigger] ev[k].name),
            forall|k: int| 0 <= k < dirs@.len() ==> actual_names(ev, mn).contains(#[trigger] dv[k] + "/"@),
            forall|k: int| 0 <= k < f ==> actual_names(ev, mn).contains(#[trigger] fv[k].path),
            manifest@ == mn,
            mn == manifest_name@,
            mismatch@ == "ZIP entries do not exactly match "@ + mn,
        decreases files@.len() - f,
    {
        let p = chars_of(files[f].path.as_str());
        proof {
            lemma_named_index(ev, p@);
            assert(p@ == fv[f as int].path);
        }
        let found = named_index_exec(entries, p.as_slice());
        let is_manifest = equal_chars(p.as_slice(), manifest.as_slice());
        if found.is_none() || is_manifest {
            proof {
                assert(expected_names(dv, fv).contains(fv[f as int].path));
                assert(!actual_names(ev, mn).contains(p@));
            }
            return Err(invalid_archive(mismatch));
        }
        proof {
            let k = named_index(ev, p@);
            assert(ev[k].name == p@);
            assert(actual_names(ev, mn).contains(p@));
        }
        f = f + 1;
    }
    proof {
        assert(actual_names(ev, mn) =~= expected_names(dv, fv)) by {
            assert forall|n: Seq<char>| expected_names(dv, fv).contains(n) implies actual_names(ev, mn).contains(n) by {
                if exists|i: int| 0 <= i < dv.len() && n == #[trigger] dv[i] + "/"@ {
                    let i = choose|i: int| 0 <= i < dv.len() && n == #[trigger] dv[i] + "/"@;
                    assert(actual_names(ev, mn).contains(dv[i] + "/"@));
                } else {
                    let i = choose|i: int| 0 <= i < fv.len() && n == #[trigger] fv[i].path;
                    assert(actual_names(ev, mn).contains(fv[i].path));
                }
            }
            assert forall|n: Seq<char>| actual_names(ev, mn).contains(n) implies expected_names(dv, fv).contains(n) by {
                let k = choose|k: int| 0 <= k < ev.len() && n == #[trigger] ev[k].name;
                assert(expected_names(dv, fv).contains(ev[k].name));
            }
        }
    }
    let mut g: usize = 0;
    proof {
        assert(fv.take(0) =~= Seq::<ManifestFileView>::empty());
    }
    while g < files.len()
        invariant
            g <= files@.len(),
            ev == entry_views(entries@),
            fv == manifest_file_views(files@),
            actual_names(ev, mn) == expected_names(dv, fv),
            dv == crate::text::views(dirs@),
            file_problem(ev, fv.take(g as int)) is None,
            mn == manifest_name@,
        decreases files@.len() - g,
    {
        proof {
            assert(fv.take(g + 1).drop_last() =~= fv.take(g as int));
            assert(fv.take(g + 1).last() == fv[g as int]);
        }
        let file = &files[g];
        let p = chars_of(file.path.as_str());
        proof {
            lemma_named_index(ev, p@);
        }
        match named_index_exec(entries, p.as_slice()) {
            None => {},
            Some(k) => {
                proof {
                    assert(ev[k as int] == entry_view(entries@[k as int]));
                }
                let e = &entries[k];
                if e.size != file.size {
                    let mut m = chars_of("size mismatch for ");
                    append_chars(&mut m, p.as_slice());
                    proof {
                        lemma_file_problem_stays(ev, fv, g as int + 1);
                    }
                    return Err(invalid_archive(string_of(m.as_slice()).as_str()));
                }
                if e.content_size != file.size || !equal_chars(
                    chars_of(e.content_sha256.as_str()).as_slice(),
                    chars_of(file.sha256.as_str()).as_slice(),
                ) {
                    let mut m = chars_of("hash mismatch for ");
                    append_chars(&mut m, p.as_slice());
                    proof {
                        lemma_file_problem_stays(ev, fv, g as int + 1);
                    }
                    return Err(invalid_archive(string_of(m.as_slice()).as_str()));
                }
            },
        }
        g = g + 1;
    }
    proof {
        assert(fv.take(fv.len() as int) =~= fv);
    }
    Ok(())
}

proof fn lemma_file_problem_stays(es: Seq<EntryView>, fs: Seq<ManifestFileView>, i: int)
    requires
        0 <= i <= fs.len(),
        file_problem(es, fs.take(i)) is Some,
    ensures
        file_problem(es, fs) == file_problem(es, fs.take(i)),
    decreases fs.len() - i,
{
    if i < fs.len() {
        assert(fs.take(i + 1).drop_last() =~= fs.take(i));
        lemma_file_problem_stays(es, fs, i + 1);
    } else {
        assert(fs.take(i) =~= fs);
    }
}

/// `path` is `root` or lies under it.
pub open spec fn in_tree(path: Seq<char>, root: Seq<char>) -> bool {
    path == root || starts_with(path, root + "/"@)
}

/// Why an entry is outside what a standard backup holds, if it is: Git
/// internals; source objects in a compact backup; anything but `.kb`, its
/// schemas, the Wiki and the admitted directories (for directories), or the
/// Vault's own files, schemas, Wiki pages and files under admitted
/// directories (for files).
pub open spec fn scope_problem(path: Seq<char>, directory: bool, roots: Seq<Seq<char>>, complete: bool) -> Option<Seq<char>> {
    if split_on(path, '/').contains(".git"@) {
        Some("Git internals are forbidden in backups"@)
    } else if !complete && (path == "Wiki/external-sources/.objects"@ || starts_with(
        path,
        "Wiki/external-sources/.objects/"@,
    )) {
        Some("compact backup contains excluded source objects"@)
    } else {
        let allowed = if directory {
            path == ".kb"@ || in_tree(path, ".kb/schemas"@) || in_tree(path, "Wiki"@) || exists|i: int|
                0 <= i < roots.len() && in_tree(path, #[trigger] roots[i])
        } else {
            path == "admission.yml"@ || path == "KB.md"@ || path == ".kb/config.yml"@ || starts_with(path, ".kb/schemas/"@)
                || starts_with(path, "Wiki/"@) || exists|i: int|
                0 <= i < roots.len() && starts_with(path, #[trigger] roots[i] + "/"@)
        };
        if allowed {
            None
        } else {
            Some("entry is outside the standard backup scope: "@ + path)
        }
    }
}

fn lit(s: &[char], l: &str) -> (b: bool)
    ensures
        b == (s@ == l@),
{
    equal_chars(s, chars_of(l).as_slice())
}

fn in_tree_exec(path: &[char], root: &[char]) -> (b: bool)
    ensures
        b == in_tree(path@, root@),
{
    let mut r = crate::text::slice_vec(root, 0, root.len());
    proof {
        assert(r@ =~= root@);
    }
    append_chars(&mut r, chars_of("/").as_slice());
    equal_chars(path, root) || starts_with_exec(path, r.as_slice())
}

/// Check that an entry lies in a standard backup's scope (see
/// `scope_problem`).
pub fn validate_backup_scope(path: &str, directory: bool, roots: &Vec<String>, complete: bool) -> (r: Result<(), KbError>)
    ensures
        match scope_problem(path@, directory, crate::text::views(roots@), complete) {
            None => r is Ok,
            Some(m) => r matches Err(e) && e.code == ErrorCode::BackupVerificationFailed && e.message@ == failure_message(m),
        },
{
    let p = chars_of(path);
    let parts = split_char(p.as_slice(), '/');
    let mut k: usize = 0;
    while k < parts.len()
        invariant
            k <= parts@.len(),
            vviews(parts@) == split_on(path@, '/'),
            forall|x: int| 0 <= x < k ==> vviews(parts@)[x] != ".git"@,
        decreases parts@.len() - k,
    {
        if lit(parts[k].as_slice(), ".git") {
            proof {
                assert(vviews(parts@)[k as int] == ".git"@);
                assert(split_on(path@, '/').contains(".git"@));
            }
            return Err(invalid_archive("Git internals are forbidden in backups"));
        }
        k = k + 1;
    }
    proof {
        assert(!split_on(path@, '/').contains(".git"@)) by {
            if split_on(path@, '/').contains(".git"@) {
                let x = choose|x: int| 0 <= x < vviews(parts@).len() && vviews(parts@)[x] == ".git"@;
                assert(vviews(parts@)[x] != ".git"@);
            }
        }
    }
    let objects = chars_of("Wiki/external-sources/.objects/");
    if !complete && (lit(p.as_slice(), "Wiki/external-sources/.objects") || starts_with_exec(p.as_slice(), objects.as_slice())) {
        return Err(invalid_archive("compact backup contains excluded source objects"));
    }
    let ghost rv = crate::text::views(roots@);
    let mut under_root = false;
    let mut i: usize = 0;
    while i < roots.len() && !under_root
        invariant
            i <= roots@.len(),
            rv == crate::text::views(roots@),
            p@ == path@,
            under_root ==> (if directory {
                exists|x: int| 0 <= x < rv.len() && in_tree(path@, #[trigger] rv[x])
            } else {
                exists|x: int| 0 <= x < rv.len() && starts_with(path@, #[trigger] rv[x] + "/"@)
            }),
            !under_root ==> forall|x: int| 0 <= x < i ==> (if directory {
                !in_tree(path@, #[trigger] rv[x])
            } else {
                !starts_with(path@, rv[x] + "/"@)
            }),
        decreases roots@.len() - i,
    {
        let root = chars_of(roots[i].as_str());
        proof {
            assert(rv[i as int] == root@);
        }
        if directory {
            if in_tree_exec(p.as_slice(), root.as_slice()) {
                under_root = true;
            }
        } else {
            let mut r = root.clone();
            append_chars(&mut r, chars_of("/").as_slice());
            if starts_with_exec(p.as_slice(), r.as_slice()) {
                under_root = true;
            }
        }
        i = i + 1;
    }
    let allowed = if directory {
        lit(p.as_slice(), ".kb") || in_tree_exec(p.as_slice(), chars_of(".kb/schemas").as_slice()) || in_tree_exec(
            p.as_slice(),
            chars_of("Wiki").as_slice(),
        ) || under_root
    } else {
        lit(p.as_slice(), "admission.yml") || lit(p.as_slice(), "KB.md") || lit(p.as_slice(), ".kb/config.yml")
            || starts_with_exec(p.as_slice(), chars_of(".kb/schemas/").as_slice()) || starts_with_exec(
            p.as_slice(),
            chars_of("Wiki/").as_slice(),
        ) || under_root
    };
    if !allowed {
        let mut m = chars_of("entry is outside the standard backup scope: ");
        append_chars(&mut m, p.as_slice());
        return Err(invalid_archive(string_of(m.as_slice()).as_str()));
    }
    Ok(())
}

/// The reason of the first path, in order, outside a standard backup's scope.
pub open spec fn first_scope_problem(paths: Seq<Seq<char>>, directory: bool, roots: Seq<Seq<char>>, complete: bool) -> Option<Seq<char>>
    decreases paths.len(),
{
    if paths.len() == 0 {
        None
    } else {
        match first_scope_problem(paths.drop_last(), directory, roots, complete) {
            Some(m) => Some(m),
            None => scope_problem(paths.last(), directory, roots, complete),
        }
    }
}

proof fn lemma_scope_problem_prefix(paths: Seq<Seq<char>>, directory: bool, roots: Seq<Seq<char>>, complete: bool, k: int)
    requires
        0 <= k <= paths.len(),
        first_scope_problem(paths.take(k), directory, roots, complete) is Some,
    ensures
        first_scope_problem(paths, directory, roots, complete) == first_scope_problem(paths.take(k), directory, roots, complete),
    decreases paths.len() - k,
{
    if k < paths.len() {
        assert(paths.take(k + 1).drop_last() =~= paths.take(k));
        lemma_scope_problem_prefix(paths, directory, roots, complete, k + 1);
    } else {
        assert(paths.take(k) =~= paths);
    }
}

fn scope_problems(paths: &Vec<String>, directory: bool, roots: &Vec<String>, complete: bool) -> (r: Result<(), KbError>)
    ensures
        match first_scope_problem(crate::text::views(paths@), directory, crate::text::views(roots@), complete) {
            None => r is Ok,
            Some(m) => r matches Err(e) && e.code == ErrorCode::BackupVerificationFailed && e.message@ == failure_message(m),
        },
{
    let ghost pv = crate::text::views(paths@);
    let mut i: usize = 0;
    proof {
        assert(pv.take(0) =~= Seq::<Seq<char>>::empty());
    }
    while i < paths.len()
        invariant
            i <= paths@.len(),
            pv == crate::text::views(paths@),
            first_scope_problem(pv.take(i as int), directory, crate::text::views(roots@), complete) is None,
        decreases paths@.len() - i,
    {
        proof {
            assert(pv.take(i + 1).drop_last() =~= pv.take(i as int));
            assert(pv.take(i + 1).last() == paths@[i as int]@);
        }
        match validate_backup_scope(paths[i].as_str(), directory, roots, complete) {
            Ok(()) => {},
            Err(e) => {
                proof {
                    lemma_scope_problem_prefix(pv, directory, crate::text::views(roots@), complete, i + 1);
                }
                return Err(e);
            },
        }
        i = i + 1;
    }
    proof {
        assert(pv.take(paths@.len() as int) =~= pv);
    }
    Ok(())
}

/// The paths of the manifest's files.
pub open spec fn file_paths(files: Seq<ManifestFile>) -> Seq<Seq<char>> {
    files.map_values(|f: ManifestFile| f.path@)
}

/// The reason a backup's Vault contract fails, if it does: the manifest must
/// name the Vault and schema of its `.kb/config.yml`, hold every admission
/// directory, and keep its directories and then its files in scope.
pub open spec fn contract_problem(
    same_identity: bool,
    roots: Seq<Seq<char>>,
    directories: Seq<Seq<char>>,
    files: Seq<Seq<char>>,
    complete: bool,
) -> Option<Seq<char>> {
    if !same_identity {
        Some("manifest Vault identity does not match .kb/config.yml"@)
    } else if exists|i: int| 0 <= i < roots.len() && !directories.contains(#[trigger] roots[i]) {
        let i = choose|i: int| 0 <= i < roots.len() && !directories.contains(#[trigger] roots[i]) && forall|k: int|
            0 <= k < i ==> directories.contains(#[trigger] roots[k]);
        Some("admission directory is missing: "@ + roots[i])
    } else if first_scope_problem(directories, true, roots, complete) is Some {
        first_scope_problem(directories, true, roots, complete)
    } else {
        first_scope_problem(files, false, roots, complete)
    }
}

fn listed_name(v: &Vec<String>, s: &str) -> (b: bool)
    ensures
        b == crate::text::views(v@).contains(s@),
{
    let ghost vv = crate::text::views(v@);
    let mut j: usize = 0;
    while j < v.len()
        invariant
            j <= v@.len(),
            vv == crate::text::views(v@),
            forall|k: int| 0 <= k < j ==> vv[k] != s@,
        decreases v@.len() - j,
    {
        if equal_chars(chars_of(v[j].as_str()).as_slice(), chars_of(s).as_slice()) {
            proof {
                assert(vv[j as int] == s@);
            }
            return true;
        }
        j = j + 1;
    }
    false
}

/// Check a backup's Vault contract (see `contract_problem`), given the Vault
/// ID and schema of its `.kb/config.yml` and of its manifest, and the
/// admission directories of its `admission.yml`.
pub fn validate_vault_contract(
    identity_vault_id: &str,
    identity_schema: &str,
    manifest_vault_id: &str,
    manifest_schema: &str,
    roots: &Vec<String>,
    directories: &Vec<String>,
    files: &Vec<ManifestFile>,
    complete: bool,
) -> (r: Result<(), KbError>)
    ensures
        match contract_problem(
            identity_vault_id@ == manifest_vault_id@ && identity_schema@ == manifest_schema@,
            crate::text::views(roots@),
            crate::text::views(directories@),
            file_paths(files@),
            complete,
        ) {
            None => r is Ok,
            Some(m) => r matches Err(e) && e.code == ErrorCode::BackupVerificationFailed && e.message@ == failure_message(m),
        },
{
    if !equal_chars(chars_of(identity_vault_id).as_slice(), chars_of(manifest_vault_id).as_slice()) || !equal_chars(
        chars_of(identity_schema).as_slice(),
        chars_of(manifest_schema).as_slice(),
    ) {
        return Err(invalid_archive("manifest Vault identity does not match .kb/config.yml"));
    }
    let ghost rv = crate::text::views(roots@);
    let ghost dv = crate::text::views(directories@);
    let mut i: usize = 0;
    while i < roots.len()
        invariant
            i <= roots@.len(),
            rv == crate::text::views(roots@),
            dv == crate::text::views(directories@),
            identity_vault_id@ == manifest_vault_id@ && identity_schema@ == manifest_schema@,
            forall|k: int| 0 <= k < i ==> dv.contains(#[trigger] rv[k]),
        decreases roots@.len() - i,
    {
        if !listed_name(directories, roots[i].as_str()) {
            let mut m = chars_of("admission directory is missing: ");
            append_chars(&mut m, chars_of(roots[i].as_str()).as_slice());
            proof {
                assert(rv[i as int] == roots@[i as int]@);
                let c = choose|c: int| 0 <= c < rv.len() && !dv.contains(#[trigger] rv[c]) && forall|k: int|
                    0 <= k < c ==> dv.contains(#[trigger] rv[k]);
                assert(0 <= c < rv.len() && !dv.contains(rv[c]) && forall|k: int| 0 <= k < c ==> dv.contains(#[trigger] rv[k])) by {
                    assert(0 <= i < rv.len() && !dv.contains(rv[i as int]) && forall|k: int| 0 <= k < i ==> dv.contains(#[trigger] rv[k]));
                }
                if c < i {
                    assert(dv.contains(rv[c]));
                }
                if i < c {
                    assert(dv.contains(rv[i as int]));
                }
            }
            return Err(invalid_archive(string_of(m.as_slice()).as_str()));
        }
        i = i + 1;
    }
    scope_problems(directories, true, roots, complete)?;
    let mut paths: Vec<String> = Vec::new();
    let mut j: usize = 0;
    while j < files.len()
        invariant
            j <= files@.len(),
            crate::text::views(paths@) == file_paths(files@).take(j as int),
        decreases files@.len() - j,
    {
        let ghost before = paths@;
        paths.push(files[j].path.clone());
        proof {
            assert(crate::text::views(paths@) =~= crate::text::views(before).push(files@[j as int].path@));
            assert(file_paths(files@).take(j + 1) =~= file_paths(files@).take(j as int).push(files@[j as int].path@));
        }
        j = j + 1;
    }
    proof {
        assert(file_paths(files@).take(files@.len() as int) =~= file_paths(files@));
    }
    scope_problems(&paths, false, roots, complete)
}

} // verus!
