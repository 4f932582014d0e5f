//! What several commands share.

use vstd::prelude::*;
use vstd::string::StringExecFns;
use crate::error::SkillfileError;
use crate::models::{Entry, EntryView};
use crate::parser::MANIFEST_NAME;
use crate::paths::{join_path, join_paths};
use crate::text::texts;

verus! {

/// What a command answers where there is no manifest.
pub open spec fn missing_manifest_text(repo_root: Seq<char>) -> Seq<char> {
    MANIFEST_NAME@ + " not found in "@ + repo_root + ". Create one and run `skillfile init`."@
}

/// What a command answers where there is no manifest.
pub fn missing_manifest(repo_root: &str) -> (r: SkillfileError)
    ensures
        r matches SkillfileError::Manifest(m) && m@ == missing_manifest_text(repo_root@),
{
    let mut m: String = String::from_str(MANIFEST_NAME);
    m.append(" not found in ");
    m.append(repo_root);
    m.append(". Create one and run `skillfile init`.");
    SkillfileError::Manifest(m)
}

/// The directory that holds the cached upstream files of an entry.
pub open spec fn vendor_dir(e: EntryView, repo_root: Seq<char>) -> Seq<char> {
    join_paths(
        join_paths(join_paths(repo_root, ".skillfile/cache"@), e.entity_type.dir_word()),
        e.name,
    )
}

/// The directory that holds the cached upstream files of an entry.
pub fn vendor_dir_for(entry: &Entry, repo_root: &str) -> (r: String)
    ensures
        r@ == vendor_dir(entry@, repo_root@),
{
    let cache = join_path(repo_root, ".skillfile/cache");
    let kind = join_path(&cache, entry.entity_type.dir_name());
    join_path(&kind, &entry.name)
}

/// Concatenates a few texts.
pub fn sentence(a: &str, b: &str, c: &str) -> (r: String)
    ensures
        r@ == a@ + b@ + c@,
{
    let mut s: String = String::from_str(a);
    s.append(b);
    s.append(c);
    s
}

/// Adds a text to a list.
pub fn push_text(out: &mut Vec<String>, s: &str)
    ensures
        texts(final(out)@) == texts(old(out)@).push(s@),
{
    let ghost before = texts(out@);
    let t: String = s.to_owned();
    out.push(t);
    assert(texts(out@) =~= before.push(s@));
}

/// A copy of a list of strings.
pub fn copy_texts(v: &Vec<String>) -> (r: Vec<String>)
    ensures
        texts(r@) == texts(v@),
{
    let mut out: Vec<String> = Vec::new();
    let mut i: usize = 0;
    while i < v.len()
        invariant
            i <= v@.len(),
            texts(out@) == texts(v@).take(i as int),
        decreases v@.len() - i,
    {
        push_text(&mut out, &v[i]);
        assert(texts(v@).take(i + 1) =~= texts(v@).take(i as int).push(v@[i as int]@));
        i += 1;
    }
    assert(texts(v@).take(i as int) =~= texts(v@));
    out
}

} // verus!
