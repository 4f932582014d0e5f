//! Where the patches of entries are kept.

use vstd::prelude::*;
use vstd::string::StringExecFns;
use crate::models::{Entry, EntryView};
use crate::paths::{join_path, join_paths};

verus! {

/// The directory of all patches, below the repository.
pub const PATCHES_DIR: &'static str = ".skillfile/patches";

/// The file or directory name with the extension of patches.
pub open spec fn patch_name(name: Seq<char>) -> Seq<char> {
    name + ".patch"@
}

/// The directory of the patches for entries of one type.
pub open spec fn type_patches(e: EntryView, repo_root: Seq<char>) -> Seq<char> {
    join_paths(join_paths(repo_root, PATCHES_DIR@), e.entity_type.dir_word())
}

/// The directory of all patches.
#[must_use]
pub fn patches_root(repo_root: &str) -> (r: String)
    ensures
        r@ == join_paths(repo_root@, PATCHES_DIR@),
{
    join_path(repo_root, PATCHES_DIR)
}

/// The patch file of an entry that is one file: `agents/name.patch` below the patches.
pub fn patch_path(entry: &Entry, repo_root: &str) -> (r: String)
    ensures
        r@ == join_paths(type_patches(entry@, repo_root@), patch_name(entry@.name)),
{
    let dir = join_path(&patches_root(repo_root), entry.entity_type.dir_name());
    let mut file: String = entry.name.clone();
    file.append(".patch");
    join_path(&dir, &file)
}

/// The directory with the patch files of an entry that is a directory.
pub fn dir_patches_root(entry: &Entry, repo_root: &str) -> (r: String)
    ensures
        r@ == join_paths(type_patches(entry@, repo_root@), entry@.name),
{
    let dir = join_path(&patches_root(repo_root), entry.entity_type.dir_name());
    join_path(&dir, &entry.name)
}

/// The patch file of one file of an entry that is a directory: `agents/name/file.patch` below the
/// patches.
pub fn dir_patch_path(entry: &Entry, filename: &str, repo_root: &str) -> (r: String)
    ensures
        r@ == join_paths(
            join_paths(type_patches(entry@, repo_root@), entry@.name),
            patch_name(filename@),
        ),
{
    let mut file: String = String::from_str(filename);
    file.append(".patch");
    join_path(&dir_patches_root(entry, repo_root), &file)
}

} // verus!
