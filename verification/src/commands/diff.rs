//! Showing what differs from upstream.

use vstd::prelude::*;
use vstd::string::StringExecFns;
use crate::commands::common::sentence;
use crate::commands::files::{
    all_names, file_views, find_text, find_text_or_empty, names_of, text_of, text_or_empty,
    FileText, FileView,
};
use crate::commands::multi_target::changed_files;
use crate::commands::pin::{about, not_ready, not_ready_error};
use crate::error::SkillfileError;
use crate::models::{short_sha, short_sha_text, ConflictState, Entry, SourceFields};
use crate::sorted::sorted_set;
use crate::text::{opt_text, same, texts};
use crate::unified::{show_diff, unified_diff_text};

verus! {

// ---------------------------------------------------------------------------
// Installed files against upstream
// ---------------------------------------------------------------------------

/// What is printed where an installed entry is as upstream.
pub open spec fn clean_text(name: Seq<char>) -> Seq<char> {
    about(name, "' is clean \u{2014} no local modifications\n"@)
}

/// The diff from the upstream text of a file to the installed one. `shown` is how the file is
/// called.
pub open spec fn local_diff(
    shown: Seq<char>,
    sha: Seq<char>,
    upstream: Seq<char>,
    installed: Seq<char>,
) -> Seq<char> {
    unified_diff_text(
        upstream,
        installed,
        "a/"@ + shown + " (upstream sha="@ + short_sha_text(sha) + ")"@,
        "b/"@ + shown + " (installed)"@,
    )
}

fn diff_local_file(shown: &str, sha: &str, upstream: &str, installed: &str) -> (r: String)
    ensures
        r@ == local_diff(shown@, sha@, upstream@, installed@),
        r@.len() == 0 <==> upstream@ == installed@,
{
    let mut a = sentence("a/", shown, " (upstream sha=");
    a.append(short_sha(sha));
    a.append(")");
    let b = sentence("b/", shown, " (installed)");
    show_diff(upstream, installed, &a, &b)
}

fn clean(name: &str) -> (r: String)
    ensures
        r@ == clean_text(name@),
{
    sentence("'", name, "' is clean \u{2014} no local modifications\n")
}

/// What is printed for a one-file entry, or why it cannot be compared.
pub open spec fn local_single_output(
    name: Seq<char>,
    sha: Seq<char>,
    cached: Option<Seq<char>>,
    installed: Option<Seq<char>>,
) -> Result<Seq<char>, Seq<char>> {
    match (cached, installed) {
        (None, _) => Err(not_ready(name, "cached"@)),
        (Some(_), None) => Err(not_ready(name, "installed"@)),
        (Some(c), Some(i)) => {
            let d = local_diff(name + ".md"@, sha, c, i);
            Ok(
                if d.len() == 0 {
                    clean_text(name)
                } else {
                    d
                },
            )
        },
    }
}

/// Compares the installed file of a one-file entry with the cached upstream one.
pub fn diff_local_single(
    entry: &Entry,
    sha: &str,
    cached: &Option<String>,
    installed: &Option<String>,
) -> (r: Result<String, SkillfileError>)
    ensures
        match local_single_output(entry@.name, sha@, opt_text(*cached), opt_text(*installed)) {
            Ok(t) => r matches Ok(s) && s@ == t,
            Err(e) => r matches Err(SkillfileError::Manifest(m)) && m@ == e,
        },
        cached matches Some(c) && installed matches Some(i) && c@ == i@ ==> (r matches Ok(s)
            && s@ == clean_text(entry@.name)),
{
    let upstream = match cached {
        None => {
            return Err(not_ready_error(&entry.name, "cached"));
        },
        Some(c) => c,
    };
    let installed_text = match installed {
        None => {
            return Err(not_ready_error(&entry.name, "installed"));
        },
        Some(i) => i,
    };
    let mut shown: String = String::from_str(&entry.name);
    shown.append(".md");
    let formatted = diff_local_file(&shown, sha, upstream, installed_text);
    if formatted.as_str().is_empty() {
        Ok(clean(&entry.name))
    } else {
        Ok(formatted)
    }
}

/// The diffs of the upstream files of a directory entry that are installed, one after the other.
pub open spec fn local_dir_diffs(
    name: Seq<char>,
    sha: Seq<char>,
    cached: Seq<FileView>,
    installed: Seq<FileView>,
) -> Seq<char>
    decreases cached.len(),
{
    if cached.len() == 0 {
        Seq::empty()
    } else {
        let f = cached.last();
        let before = local_dir_diffs(name, sha, cached.drop_last(), installed);
        match text_of(installed, f.name) {
            Some(t) => before + local_diff(name + "/"@ + f.name, sha, f.text, t),
            None => before,
        }
    }
}

/// What is printed for a directory entry, or why it cannot be compared.
pub open spec fn local_dir_output(
    name: Seq<char>,
    sha: Seq<char>,
    cached: Option<Seq<FileView>>,
    installed: Option<Seq<FileView>>,
) -> Result<Seq<char>, Seq<char>> {
    match cached {
        None => Err(not_ready(name, "cached"@)),
        Some(c) => match installed {
            None => Err(not_ready(name, "installed"@)),
            Some(i) => {
                let d = local_dir_diffs(name, sha, c, i);
                Ok(
                    if d.len() == 0 {
                        clean_text(name)
                    } else {
                        d
                    },
                )
            },
        },
    }
}

/// The contents of an optional list of files.
pub open spec fn opt_files(f: Option<Vec<FileText>>) -> Option<Seq<FileView>> {
    match f {
        Some(v) => Some(file_views(v@)),
        None => None,
    }
}

/// Compares the installed files of a directory entry with the cached upstream ones. Files that are
/// meant to be installed but are not there are left out; without any such file (`None`) the entry
/// is not installed.
pub fn diff_local_dir(
    entry: &Entry,
    sha: &str,
    cached: &Option<Vec<FileText>>,
    installed: &Option<Vec<FileText>>,
) -> (r: Result<String, SkillfileError>)
    ensures
        match local_dir_output(
            entry@.name,
            sha@,
            opt_files(*cached),
            opt_files(*installed),
        ) {
            Ok(t) => r matches Ok(s) && s@ == t,
            Err(e) => r matches Err(SkillfileError::Manifest(m)) && m@ == e,
        },
        cached matches Some(c) && installed matches Some(i) && changed_files(
            file_views(c@),
            file_views(i@),
        ).len() == 0 ==> (r matches Ok(s) && s@ == clean_text(entry@.name)),
{
    let files = match cached {
        None => {
            return Err(not_ready_error(&entry.name, "cached"));
        },
        Some(c) => c,
    };
    let there = match installed {
        None => {
            return Err(not_ready_error(&entry.name, "installed"));
        },
        Some(i) => i,
    };
    let ghost name = entry.name@;
    let ghost cs = file_views(files@);
    let ghost fs = file_views(there@);
    let mut out: String = String::new();
    let mut i: usize = 0;
    assert(out@ =~= local_dir_diffs(name, sha@, cs.take(0), fs));
    while i < files.len()
        invariant
            name == entry.name@,
            cs == file_views(files@),
            fs == file_views(there@),
            i <= files@.len(),
            out@ == local_dir_diffs(name, sha@, cs.take(i as int), fs),
            out@.len() == 0 <==> changed_files(cs.take(i as int), fs).len() == 0,
        decreases files@.len() - i,
    {
        assert(cs.take(i + 1).drop_last() =~= cs.take(i as int));
        assert(cs.take(i + 1).last() == files@[i as int]@);
        if let Some(t) = find_text(there, &files[i].name) {
            let shown = sentence(&entry.name, "/", &files[i].name);
            let formatted = diff_local_file(&shown, sha, &files[i].text, t);
            out.append(&formatted);
        }
        i += 1;
    }
    assert(cs.take(i as int) =~= cs);
    if out.as_str().is_empty() {
        Ok(clean(&entry.name))
    } else {
        Ok(out)
    }
}

// ---------------------------------------------------------------------------
// Upstream before and after, for an entry in conflict
// ---------------------------------------------------------------------------

/// What is printed where upstream did not change.
pub open spec fn no_upstream_changes() -> Seq<char> {
    "No upstream changes detected (patch conflict may be due to local file drift).\n"@
}

/// The diff of a file between the two upstream revisions of a conflict.
pub open spec fn upstream_diff(
    shown: Seq<char>,
    old_sha: Seq<char>,
    new_sha: Seq<char>,
    old_text: Seq<char>,
    new_text: Seq<char>,
) -> Seq<char> {
    unified_diff_text(
        old_text,
        new_text,
        shown + " (old upstream sha="@ + short_sha_text(old_sha) + ")"@,
        shown + " (new upstream sha="@ + short_sha_text(new_sha) + ")"@,
    )
}

fn diff_upstream_file(shown: &str, conflict: &ConflictState, old_text: &str, new_text: &str) -> (r:
    String)
    ensures
        r@ == upstream_diff(
            shown@,
            conflict.old_sha@,
            conflict.new_sha@,
            old_text@,
            new_text@,
        ),
        r@.len() == 0 <==> old_text@ == new_text@,
{
    let mut a = sentence(shown, " (old upstream sha=", short_sha(&conflict.old_sha));
    a.append(")");
    let mut b = sentence(shown, " (new upstream sha=", short_sha(&conflict.new_sha));
    b.append(")");
    show_diff(old_text, new_text, &a, &b)
}

fn or_no_changes(d: String) -> (r: String)
    ensures
        r@ == (if d@.len() == 0 {
            no_upstream_changes()
        } else {
            d@
        }),
{
    if d.as_str().is_empty() {
        String::from_str(
            "No upstream changes detected (patch conflict may be due to local file drift).\n",
        )
    } else {
        d
    }
}

/// What is printed for a one-file entry in conflict.
pub open spec fn conflict_single_output(
    name: Seq<char>,
    old_sha: Seq<char>,
    new_sha: Seq<char>,
    old_text: Seq<char>,
    new_text: Seq<char>,
) -> Seq<char> {
    let d = upstream_diff(name + ".md"@, old_sha, new_sha, old_text, new_text);
    if d.len() == 0 {
        no_upstream_changes()
    } else {
        d
    }
}

/// Compares the two upstream revisions of a one-file entry in conflict.
pub fn diff_conflict_single(
    entry: &Entry,
    conflict: &ConflictState,
    old_content: &str,
    new_content: &str,
) -> (r: String)
    ensures
        r@ == conflict_single_output(
            entry@.name,
            conflict.old_sha@,
            conflict.new_sha@,
            old_content@,
            new_content@,
        ),
        old_content@ == new_content@ ==> r@ == no_upstream_changes(),
{
    let mut shown: String = String::from_str(&entry.name);
    shown.append(".md");
    or_no_changes(diff_upstream_file(&shown, conflict, old_content, new_content))
}

/// The diffs of the named files between the two upstream revisions; a file that a revision lacks
/// counts as empty.
pub open spec fn conflict_dir_diffs(
    name: Seq<char>,
    old_sha: Seq<char>,
    new_sha: Seq<char>,
    filenames: Seq<Seq<char>>,
    old_files: Seq<FileView>,
    new_files: Seq<FileView>,
) -> Seq<char>
    decreases filenames.len(),
{
    if filenames.len() == 0 {
        Seq::empty()
    } else {
        let f = filenames.last();
        conflict_dir_diffs(name, old_sha, new_sha, filenames.drop_last(), old_files, new_files)
            + upstream_diff(
            name + "/"@ + f,
            old_sha,
            new_sha,
            text_or_empty(old_files, f),
            text_or_empty(new_files, f),
        )
    }
}

/// What is printed for a directory entry in conflict: the diffs of all files of both revisions, in
/// the order of their names.
pub open spec fn conflict_dir_output(
    name: Seq<char>,
    old_sha: Seq<char>,
    new_sha: Seq<char>,
    old_files: Seq<FileView>,
    new_files: Seq<FileView>,
) -> Seq<char> {
    let d = conflict_dir_diffs(
        name,
        old_sha,
        new_sha,
        sorted_set(names_of(old_files) + names_of(new_files)),
        old_files,
        new_files,
    );
    if d.len() == 0 {
        no_upstream_changes()
    } else {
        d
    }
}

/// Compares the two upstream revisions of a directory entry in conflict.
pub fn diff_conflict_dir(
    entry: &Entry,
    conflict: &ConflictState,
    old_files: &Vec<FileText>,
    new_files: &Vec<FileText>,
) -> (r: String)
    ensures
        r@ == conflict_dir_output(
            entry@.name,
            conflict.old_sha@,
            conflict.new_sha@,
            file_views(old_files@),
            file_views(new_files@),
        ),
        file_views(old_files@) == file_views(new_files@) ==> r@ == no_upstream_changes(),
{
    let all_filenames = all_names(old_files, new_files);
    let ghost ns = texts(all_filenames@);
    let ghost name = entry.name@;
    let ghost old_sha = conflict.old_sha@;
    let ghost new_sha = conflict.new_sha@;
    let ghost ov = file_views(old_files@);
    let ghost nv = file_views(new_files@);
    let mut out: String = String::new();
    let mut i: usize = 0;
    assert(out@ =~= conflict_dir_diffs(name, old_sha, new_sha, ns.take(0), ov, nv));
    while i < all_filenames.len()
        invariant
            ns == texts(all_filenames@),
            name == entry.name@,
            old_sha == conflict.old_sha@,
            new_sha == conflict.new_sha@,
            ov == file_views(old_files@),
            nv == file_views(new_files@),
            i <= all_filenames@.len(),
            out@ == conflict_dir_diffs(name, old_sha, new_sha, ns.take(i as int), ov, nv),
            ov == nv ==> out@.len() == 0,
        decreases all_filenames@.len() - i,
    {
        assert(ns.take(i + 1).drop_last() =~= ns.take(i as int));
        assert(ns.take(i + 1).last() == all_filenames@[i as int]@);
        let filename = all_filenames[i].as_str();
        let shown = sentence(&entry.name, "/", filename);
        let formatted = diff_upstream_file(
            &shown,
            conflict,
            find_text_or_empty(old_files, filename),
            find_text_or_empty(new_files, filename),
        );
        out.append(&formatted);
        i += 1;
    }
    assert(ns.take(i as int) =~= ns);
    or_no_changes(out)
}

// ---------------------------------------------------------------------------
// The command
// ---------------------------------------------------------------------------

/// What is to be compared.
pub enum DiffStep {
    /// The two upstream revisions of the pending conflict.
    Conflict,
    /// Nothing: a message says why.
    Nothing(String),
    /// The installed files and upstream at the locked revision.
    Local(String),
}

/// Decides what is to be compared for an entry, given the pending conflict and the revision at
/// which the entry is locked.
pub fn cmd_diff(
    entry: &Entry,
    conflict: &Option<ConflictState>,
    locked_sha: &Option<String>,
) -> (r: Result<DiffStep, SkillfileError>)
    ensures
        conflict matches Some(c) && c.entry@ == entry@.name ==> r == Ok::<
            DiffStep,
            SkillfileError,
        >(DiffStep::Conflict),
        !(conflict matches Some(c) && c.entry@ == entry@.name) ==> (if entry@.source is Local {
            r matches Ok(DiffStep::Nothing(m)) && m@ == about(
                entry@.name,
                "' is a local entry \u{2014} nothing to diff"@,
            )
        } else {
            match *locked_sha {
                Some(sha) => r matches Ok(DiffStep::Local(s)) && s@ == sha@,
                None => r matches Err(SkillfileError::Manifest(m)) && m@ == not_ready(
                    entry@.name,
                    "locked"@,
                ),
            }
        }),
{
    if let Some(c) = conflict {
        if same(&c.entry, &entry.name) {
            return Ok(DiffStep::Conflict);
        }
    }
    if let SourceFields::Local { .. } = &entry.source {
        return Ok(
            DiffStep::Nothing(
                sentence("'", &entry.name, "' is a local entry \u{2014} nothing to diff"),
            ),
        );
    }
    match locked_sha {
        Some(sha) => Ok(DiffStep::Local(sha.clone())),
        None => Err(not_ready_error(&entry.name, "locked")),
    }
}

} // verus!
