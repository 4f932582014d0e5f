//! Where a pending conflict is kept.

use vstd::prelude::*;
use crate::paths::{join_path, join_paths};

verus! {

/// The file of the pending conflict, below the repository.
pub const CONFLICT_FILE: &'static str = ".skillfile/conflict";

/// The file of the pending conflict of a repository.
pub fn conflict_path(repo_root: &str) -> (r: String)
    ensures
        r@ == join_paths(repo_root@, CONFLICT_FILE@),
{
    join_path(repo_root, CONFLICT_FILE)
}

} // verus!
