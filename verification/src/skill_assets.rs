//! The Skill files the tool installs, each with its SHA-256 digest.
use vstd::prelude::*;
use crate::source_io::{hash, hex_chars, sha256_digest};

verus! {

/// One Skill file: its path inside the Skill, its bytes and their digest.
#[derive(Debug, Clone)]
pub struct SkillAsset {
    pub path: String,
    pub bytes: Vec<u8>,
    pub sha256: String,
}

/// The names of the Skills, in installation order.
pub open spec fn skill_names() -> Seq<Seq<char>> {
    seq!["kb-vault"@, "kb-config"@, "kb-ingest"@, "kb-query"@, "kb-save"@, "kb-ops"@, "kb-backup"@, "kb-connect"@]
}

/// The names of the Skills (see `skill_names`).
pub fn skill_name_list() -> (out: Vec<String>)
    ensures
        crate::text::views(out@) == skill_names(),
{
    let mut out: Vec<String> = Vec::new();
    out.push("kb-vault".to_owned());
    out.push("kb-config".to_owned());
    out.push("kb-ingest".to_owned());
    out.push("kb-query".to_owned());
    out.push("kb-save".to_owned());
    out.push("kb-ops".to_owned());
    out.push("kb-backup".to_owned());
    out.push("kb-connect".to_owned());
    proof {
        assert(crate::text::views(out@) =~= skill_names());
    }
    out
}

/// Each file with the lowercase hexadecimal SHA-256 digest of its bytes, in order.
pub fn make_assets(files: Vec<(String, Vec<u8>)>) -> (out: Vec<SkillAsset>)
    ensures
        out@.len() == files@.len(),
        forall|i: int| 0 <= i < out@.len() ==> {
            &&& (#[trigger] out@[i]).path@ == files@[i].0@
            &&& out@[i].bytes@ == files@[i].1@
            &&& out@[i].sha256@ == hex_chars(sha256_digest(files@[i].1@))
        },
{
    let mut out: Vec<SkillAsset> = Vec::new();
    let mut i: usize = 0;
    while i < files.len()
        invariant
            i <= files@.len(),
            out@.len() == i,
            forall|k: int| 0 <= k < i ==> {
                &&& (#[trigger] out@[k]).path@ == files@[k].0@
                &&& out@[k].bytes@ == files@[k].1@
                &&& out@[k].sha256@ == hex_chars(sha256_digest(files@[k].1@))
            },
        decreases files@.len() - i,
    {
        let (path, bytes) = &files[i];
        let sha256 = hash(bytes.as_slice());
        out.push(SkillAsset { path: path.clone(), bytes: bytes.clone(), sha256 });
        i = i + 1;
    }
    out
}

} // verus!
