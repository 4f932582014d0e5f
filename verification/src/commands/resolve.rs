//! Merging local edits with a new upstream revision.

use vstd::prelude::*;
use vstd::string::StringExecFns;
use vstd::utf8::{decode_utf8, valid_utf8};
use crate::commands::common::{push_text, sentence};
use crate::commands::files::{
    all_names, file_views, find_text_or_empty, names_of, push_file, text_or_empty, FileText,
    FileView,
};
use crate::commands::pin::about;
use crate::error::SkillfileError;
use crate::models::{short_sha, short_sha_text, ConflictState};
use crate::parser::{lossy_text, utf8_text};
use crate::patch::{apply_patch_pure, patched};
use crate::sorted::sorted_set;
use crate::text::{contains_text, has_text, join, join_all, opt_text, same, texts};
use crate::unified::{generate_patch, patch_between, restores};

verus! {

// ---------------------------------------------------------------------------
// One file
// ---------------------------------------------------------------------------

/// Three versions to merge: the common ancestor, the new upstream one and the edited one.
pub struct MergeInput {
    pub base: String,
    pub theirs: String,
    pub yours: String,
}

/// The result of a three-way merge.
pub struct MergeResult {
    pub merged: String,
    pub has_conflicts: bool,
}

/// What is to be done with a merged file.
pub enum MergeStep {
    /// The file is merged: its text.
    Merged(String),
    /// The user has to resolve the conflicts in an editor.
    OpenEditor,
    /// Conflict markers are still there after editing.
    StillConflicted,
}

/// The mark at which a conflict starts.
pub const CONFLICT_MARK: &'static str = "<<<<<<<";

/// The edited version of a one-file entry, or why there is none: what the stored patch makes of
/// the common ancestor, or else what is installed.
pub open spec fn yours_of_single(
    name: Seq<char>,
    base: Seq<char>,
    patch: Option<Seq<char>>,
    installed: Option<Seq<char>>,
    path: Seq<char>,
) -> Result<Seq<char>, Seq<char>> {
    match (patch, installed) {
        (Some(p), _) => patched(base, p),
        (None, Some(t)) => Ok(t),
        (None, None) => Err(about(name, "' is not installed at "@ + path)),
    }
}

/// Reconstructs the edited version of a one-file entry.
pub fn reconstruct_yours_single(
    name: &str,
    base: &str,
    patch: &Option<String>,
    installed: &Option<String>,
    path: &str,
) -> (r: Result<String, SkillfileError>)
    ensures
        match yours_of_single(name@, base@, opt_text(*patch), opt_text(*installed), path@) {
            Ok(t) => r matches Ok(s) && s@ == t,
            Err(e) => r matches Err(SkillfileError::Manifest(m)) && m@ == e,
        },
{
    if let Some(p) = patch {
        return apply_patch_pure(base, p);
    }
    match installed {
        Some(t) => Ok(t.clone()),
        None => {
            let more = sentence("' is not installed at ", path, "");
            proof {
                reveal_strlit("");
                assert(more@ =~= "' is not installed at "@ + path@);
            }
            Err(SkillfileError::Manifest(sentence("'", name, &more)))
        },
    }
}

/// What is to be done with a merged file, given the text that came back from the editor where it
/// was opened.
pub open spec fn is_merge_step(
    merged: Seq<char>,
    has_conflicts: bool,
    edited: Option<Seq<char>>,
    step: MergeStep,
) -> bool {
    if !has_conflicts {
        step matches MergeStep::Merged(t) && t@ == merged
    } else {
        match edited {
            None => step is OpenEditor,
            Some(e) => if has_text(e, CONFLICT_MARK@) {
                step is StillConflicted
            } else {
                step matches MergeStep::Merged(t) && t@ == e
            },
        }
    }
}

/// Decides what is to be done with a merged file: a clean merge stands; conflicts go to the
/// editor, and what comes back stands where no conflict mark is left.
pub fn resolve_conflicts_or_clean(result: &MergeResult, edited: &Option<String>) -> (r: MergeStep)
    ensures
        is_merge_step(result.merged@, result.has_conflicts, opt_text(*edited), r),
{
    if !result.has_conflicts {
        return MergeStep::Merged(result.merged.clone());
    }
    match edited {
        None => MergeStep::OpenEditor,
        Some(e) => if contains_text(e, CONFLICT_MARK) {
            MergeStep::StillConflicted
        } else {
            MergeStep::Merged(e.clone())
        },
    }
}

/// What resolving a one-file entry leaves behind: the text to install, the patch to keep, where
/// there is one, and two messages.
pub struct SingleResolution {
    pub installed: String,
    pub patch: Option<String>,
    pub note: String,
    pub message: String,
}

/// What is said of a resolved entry.
pub open spec fn resolved_text(name: Seq<char>) -> Seq<char> {
    "\nResolved. Run `skillfile install` to deploy '"@ + name + "'."@
}

fn resolved_message(name: &str) -> (r: String)
    ensures
        r@ == resolved_text(name@),
{
    sentence("\nResolved. Run `skillfile install` to deploy '", name, "'.")
}

/// Works out what resolving a one-file entry leaves behind: the merged text is installed, and what
/// it changes of the new upstream text is kept as the patch.
pub fn resolve_single_file(name: &str, theirs: &str, merged: &str) -> (r: SingleResolution)
    ensures
        r.installed@ == merged@,
        if theirs@ == merged@ {
            &&& r.patch is None
            &&& r.note@ == "  merged result matches upstream \u{2014} removed pin for '"@ + name@
                + "'"@
        } else {
            &&& r.patch matches Some(p) && p@ == patch_between(theirs@, merged@, name@ + ".md"@)
            &&& r.note@ == "  updated .skillfile/patches/ for '"@ + name@ + "'"@
        },
        r.message@ == resolved_text(name@),
        r.patch matches Some(p) ==> restores(theirs@, merged@, name@ + ".md"@, p@),
{
    let mut filename: String = String::from_str(name);
    filename.append(".md");
    let patch_text = generate_patch(theirs, merged, &filename);
    let message = resolved_message(name);
    if patch_text.as_str().is_empty() {
        SingleResolution {
            installed: merged.to_owned(),
            patch: None,
            note: sentence(
                "  merged result matches upstream \u{2014} removed pin for '",
                name,
                "'",
            ),
            message,
        }
    } else {
        SingleResolution {
            installed: merged.to_owned(),
            patch: Some(patch_text),
            note: sentence("  updated .skillfile/patches/ for '", name, "'"),
            message,
        }
    }
}

// ---------------------------------------------------------------------------
// Directory entries
// ---------------------------------------------------------------------------

/// The edited version of a file of a directory entry, or why there is none: what the stored patch
/// makes of the common ancestor, or else what is installed, or else the ancestor.
pub open spec fn yours_of_file(
    base: Seq<char>,
    patch: Option<Seq<char>>,
    installed: Option<Seq<char>>,
) -> Result<Seq<char>, Seq<char>> {
    match (patch, installed) {
        (Some(p), _) => patched(base, p),
        (None, Some(t)) => Ok(t),
        (None, None) => Ok(base),
    }
}

/// The merge of the files of a directory entry, one after the other.
pub struct DirMerge {
    /// The files of both upstream revisions.
    pub filenames: Vec<String>,
    /// How many files are merged.
    pub done: usize,
    /// The merged files.
    pub merged: Vec<FileText>,
    /// Whether a file had conflicts.
    pub any_conflict: bool,
}

impl DirMerge {
    /// The merged files are the first ones, in order.
    pub open spec fn valid(&self) -> bool {
        &&& self.done <= self.filenames@.len()
        &&& names_of(file_views(self.merged@)) == texts(self.filenames@).take(self.done as int)
    }

    /// Starts the merge of the files of the two upstream revisions, or says that the entry is not
    /// installed.
    pub fn start(
        entry_name: &str,
        base_files: &Vec<FileText>,
        theirs_files: &Vec<FileText>,
        installed: bool,
    ) -> (r: Result<Self, SkillfileError>)
        ensures
            if installed {
                &&& r matches Ok(m) && m.valid() && m.done == 0 && !m.any_conflict && texts(
                    m.filenames@,
                ) == sorted_set(
                    names_of(file_views(base_files@)) + names_of(file_views(theirs_files@)),
                )
            } else {
                r matches Err(SkillfileError::Manifest(m)) && m@ == about(
                    entry_name@,
                    "' is not installed"@,
                )
            },
    {
        if !installed {
            return Err(SkillfileError::Manifest(sentence("'", entry_name, "' is not installed")));
        }
        let filenames = all_names(base_files, theirs_files);
        let m = DirMerge { filenames, done: 0, merged: Vec::new(), any_conflict: false };
        assert(names_of(file_views(m.merged@)) =~= texts(m.filenames@).take(0));
        Ok(m)
    }

    /// The file to merge next.
    pub fn current(&self) -> (r: Option<&str>)
        requires
            self.valid(),
        ensures
            match r {
                Some(f) => self.done < self.filenames@.len() && f@
                    == self.filenames@[self.done as int]@,
                None => self.done == self.filenames@.len(),
            },
    {
        if self.done < self.filenames.len() {
            Some(self.filenames[self.done].as_str())
        } else {
            None
        }
    }

    /// Takes the result of merging the file that is next, and the text that came back from the
    /// editor where it was opened. The file counts as merged where the step says so.
    pub fn accept(&mut self, result: &MergeResult, edited: &Option<String>) -> (r: MergeStep)
        requires
            old(self).valid(),
            old(self).done < old(self).filenames@.len(),
        ensures
            final(self).valid(),
            final(self).filenames == old(self).filenames,
            is_merge_step(result.merged@, result.has_conflicts, opt_text(*edited), r),
            match r {
                MergeStep::Merged(t) => {
                    &&& final(self).done == old(self).done + 1
                    &&& file_views(final(self).merged@) == file_views(old(self).merged@).push(
                        (FileView { name: old(self).filenames@[old(self).done as int]@, text: t@ }),
                    )
                    &&& final(self).any_conflict == (old(self).any_conflict || result.has_conflicts)
                },
                _ => *final(self) == *old(self),
            },
    {
        let step = resolve_conflicts_or_clean(result, edited);
        if let MergeStep::Merged(t) = &step {
            let name = self.filenames[self.done].clone();
            let ghost before = file_views(self.merged@);
            let ghost ns = texts(self.filenames@);
            let count: usize = self.filenames.len();
            assert(self.done < count);
            push_file(&mut self.merged, &name, t);
            self.done = self.done + 1;
            if result.has_conflicts {
                self.any_conflict = true;
            }
            assert(names_of(file_views(self.merged@)) =~= names_of(before).push(name@));
            assert(ns.take(self.done as int) =~= ns.take(self.done - 1).push(name@));
        }
        step
    }
}

/// The three versions of a file of a directory entry; a revision that lacks the file counts as
/// empty.
pub fn merge_input(
    filename: &str,
    base_files: &Vec<FileText>,
    theirs_files: &Vec<FileText>,
    patch: &Option<String>,
    installed: &Option<String>,
) -> (r: Result<MergeInput, SkillfileError>)
    ensures
        match yours_of_file(
            text_or_empty(file_views(base_files@), filename@),
            opt_text(*patch),
            opt_text(*installed),
        ) {
            Ok(t) => r matches Ok(i) && i.yours@ == t && i.base@ == text_or_empty(
                file_views(base_files@),
                filename@,
            ) && i.theirs@ == text_or_empty(file_views(theirs_files@), filename@),
            Err(e) => r matches Err(SkillfileError::Manifest(m)) && m@ == e,
        },
{
    let base = find_text_or_empty(base_files, filename);
    let theirs = find_text_or_empty(theirs_files, filename);
    let yours = match patch {
        Some(p) => apply_patch_pure(base, p)?,
        None => match installed {
            Some(t) => t.clone(),
            None => base.to_owned(),
        },
    };
    Ok(MergeInput { base: base.to_owned(), theirs: theirs.to_owned(), yours })
}

/// The patches that keep what the merged files change of the new upstream ones.
pub open spec fn merged_patches(merged: Seq<FileView>, theirs: Seq<FileView>) -> Seq<FileView>
    decreases merged.len(),
{
    if merged.len() == 0 {
        Seq::empty()
    } else {
        let init = merged_patches(merged.drop_last(), theirs);
        let f = merged.last();
        let t = text_or_empty(theirs, f.name);
        if f.text == t {
            init
        } else {
            init.push(FileView { name: f.name, text: patch_between(t, f.text, f.name) })
        }
    }
}

/// What resolving a directory entry leaves behind: the patches to keep in place of all earlier
/// ones, and two messages.
pub struct DirResolution {
    pub patches: Vec<FileText>,
    pub note: String,
    pub message: String,
}

/// What is said of the patches of a resolved directory entry.
pub open spec fn dir_note(name: Seq<char>, pinned: Seq<Seq<char>>) -> Seq<char> {
    if pinned.len() == 0 {
        "  merged result matches upstream \u{2014} no pin needed for '"@ + name + "'"@
    } else {
        "  updated .skillfile/patches/ for '"@ + name + "' ("@ + join(pinned, ", "@) + ")"@
    }
}

/// Whether a patch restores the merged text of its file from the new upstream one.
pub open spec fn restores_merged(
    merged: Seq<FileView>,
    theirs: Seq<FileView>,
    patch: FileView,
) -> bool {
    exists|j: int|
        0 <= j < merged.len() && (#[trigger] merged[j]).name == patch.name && restores(
            text_or_empty(theirs, patch.name),
            merged[j].text,
            patch.name,
            patch.text,
        )
}

/// Works out what resolving a directory entry leaves behind. The patches restore the merged files.
pub fn write_merged_results(name: &str, merged: &Vec<FileText>, theirs_files: &Vec<FileText>) -> (r:
    DirResolution)
    ensures
        file_views(r.patches@) == merged_patches(file_views(merged@), file_views(theirs_files@)),
        r.note@ == dir_note(name@, names_of(file_views(r.patches@))),
        r.message@ == resolved_text(name@),
        forall|i: int|
            0 <= i < r.patches@.len() ==> restores_merged(
                file_views(merged@),
                file_views(theirs_files@),
                (#[trigger] r.patches@[i])@,
            ),
{
    let ghost ms = file_views(merged@);
    let ghost ts = file_views(theirs_files@);
    let mut patches: Vec<FileText> = Vec::new();
    let mut pinned: Vec<String> = Vec::new();
    let mut i: usize = 0;
    assert(file_views(patches@) =~= merged_patches(ms.take(0), ts));
    assert(texts(pinned@) =~= names_of(file_views(patches@)));
    while i < merged.len()
        invariant
            ms == file_views(merged@),
            ts == file_views(theirs_files@),
            i <= merged@.len(),
            file_views(patches@) == merged_patches(ms.take(i as int), ts),
            texts(pinned@) == names_of(file_views(patches@)),
            forall|k: int|
                0 <= k < patches@.len() ==> restores_merged(ms, ts, (#[trigger] patches@[k])@),
        decreases merged@.len() - i,
    {
        assert(ms.take(i + 1).drop_last() =~= ms.take(i as int));
        assert(ms.take(i + 1).last() == merged@[i as int]@);
        let f = &merged[i];
        let patch_text = generate_patch(
            find_text_or_empty(theirs_files, &f.name),
            &f.text,
            &f.name,
        );
        if !patch_text.as_str().is_empty() {
            let ghost before = file_views(patches@);
            let ghost kept = patches@;
            push_file(&mut patches, &f.name, &patch_text);
            assert(ms[i as int].name == f.name@);
            assert forall|k: int| 0 <= k < patches@.len() implies restores_merged(
                ms,
                ts,
                (#[trigger] patches@[k])@,
            ) by {
                assert(file_views(patches@).len() == patches@.len() && before.len() == kept.len());
                assert(patches@[k]@ == file_views(patches@)[k]);
                if k < kept.len() {
                    assert(before[k] == kept[k]@);
                    assert(restores_merged(ms, ts, kept[k]@));
                } else {
                    assert(patches@[k]@.name == ms[i as int].name);
                    assert(patches@[k]@.text == patch_text@);
                    assert(ms[i as int].text == f.text@);
                }
            }
            push_text(&mut pinned, &f.name);
            assert(names_of(file_views(patches@)) =~= names_of(before).push(f.name@));
        }
        i += 1;
    }
    assert(ms.take(i as int) =~= ms);
    let message = resolved_message(name);
    assert(texts(pinned@).len() == pinned@.len());
    let note = if pinned.len() == 0 {
        sentence("  merged result matches upstream \u{2014} no pin needed for '", name, "'")
    } else {
        let mut s = sentence("  updated .skillfile/patches/ for '", name, "' (");
        let list = join_all(&pinned, ", ");
        s.append(&list);
        s.append(")");
        s
    };
    DirResolution { patches, note, message }
}

// ---------------------------------------------------------------------------
// The command
// ---------------------------------------------------------------------------

/// What `resolve` starts with.
pub enum ResolveStart {
    /// The conflict is given up: whether there is one to forget, and what is said.
    Abort { clear: bool, message: String },
    /// The entry of this name is resolved.
    Resolve(String),
}

/// Decides what `resolve` does, given the pending conflict.
pub fn cmd_resolve(name: Option<&str>, abort: bool, conflict: &Option<ConflictState>) -> (r: Result<
    ResolveStart,
    SkillfileError,
>)
    ensures
        if abort {
            r matches Ok(ResolveStart::Abort { clear, message }) && match *conflict {
                None => !clear && message@ == "No pending conflict to abort."@,
                Some(c) => clear && message@ == "Conflict for '"@ + c.entry@
                    + "' cleared. Run `skillfile install` to continue."@,
            }
        } else {
            match name {
                Some(n) => r matches Ok(ResolveStart::Resolve(s)) && s@ == n@,
                None => r matches Err(SkillfileError::Manifest(m)) && m@
                    == "entry name required (unless --abort)"@,
            }
        },
{
    if abort {
        return Ok(
            match conflict {
                None => ResolveStart::Abort {
                    clear: false,
                    message: String::from_str("No pending conflict to abort."),
                },
                Some(c) => ResolveStart::Abort {
                    clear: true,
                    message: sentence(
                        "Conflict for '",
                        &c.entry,
                        "' cleared. Run `skillfile install` to continue.",
                    ),
                },
            },
        );
    }
    match name {
        Some(n) => Ok(ResolveStart::Resolve(n.to_owned())),
        None => Err(
            SkillfileError::Manifest(String::from_str("entry name required (unless --abort)")),
        ),
    }
}

/// Why an entry cannot be resolved.
pub open spec fn no_conflict_text(name: Seq<char>) -> Seq<char> {
    "no pending conflict for '"@ + name
        + "' \u{2014} `skillfile resolve` is only available after a conflict is detected by `skillfile install --update`"@
}

/// The pending conflict, where it is that of the named entry.
pub fn pending_conflict<'a>(name: &str, conflict: &'a Option<ConflictState>) -> (r: Result<
    &'a ConflictState,
    SkillfileError,
>)
    ensures
        match *conflict {
            Some(c) if c.entry@ == name@ => r matches Ok(x) && *x == c,
            _ => r matches Err(SkillfileError::Manifest(m)) && m@ == no_conflict_text(name@),
        },
{
    if let Some(c) = conflict {
        if same(&c.entry, name) {
            return Ok(c);
        }
    }
    Err(
        SkillfileError::Manifest(
            sentence(
                "no pending conflict for '",
                name,
                "' \u{2014} `skillfile resolve` is only available after a conflict is detected by `skillfile install --update`",
            ),
        ),
    )
}

/// What is said while a revision is fetched; the role is given in words after the revision.
pub fn fetching_note(which: &str, sha: &str, role: &str) -> (r: String)
    ensures
        r@ == "  fetching upstream at "@ + which@ + " sha="@ + short_sha_text(sha@) + role@
            + " ..."@,
{
    let mut s = sentence("  fetching upstream at ", which, " sha=");
    s.append(short_sha(sha));
    s.append(role);
    s.append(" ...");
    s
}

/// The result of a merge, by what the merge tool wrote and whether it succeeded; where it did not,
/// there are conflicts.
pub fn three_way_merge(success: bool, stdout: &[u8]) -> (r: MergeResult)
    ensures
        r.has_conflicts == !success,
        r.merged@ == lossy_text(stdout@),
        valid_utf8(stdout@) ==> r.merged@ == decode_utf8(stdout@),
{
    MergeResult { merged: utf8_text(stdout), has_conflicts: !success }
}

} // verus!
