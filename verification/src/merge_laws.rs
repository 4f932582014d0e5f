//! What goes into a merge, and what comes out of it.

use vstd::prelude::*;
use crate::commands::resolve::{dir_note, is_merge_step, yours_of_file, yours_of_single, MergeStep};
use crate::lines::split_inclusive;
use crate::patch::patched;
use crate::patch_laws::{law_patch_round_trip, no_lone_cr, same_up_to_final_newline};
use crate::text::{has_text, join, starts_with};
use crate::unified::{
    diff_lines, diff_text, is_edit_script, is_unified_diff, law_patch_restores, normalized,
    patch_between, unified_diff_text, DiffHunk,
};

verus! {

/// Where a patch is stored that leads from the common ancestor to an edited text, the version of the
/// user that goes into the merge is that edited text, whatever is installed. Only a line feed at the
/// end may be added.
///
/// Left out are texts with a lone carriage return and file names with a line feed, of which a patch
/// does not hold as much.
pub proof fn law_merge_takes_the_pinned_edit(
    name: Seq<char>,
    base: Seq<char>,
    edited: Seq<char>,
    hs: Seq<DiffHunk>,
    old_name: Seq<char>,
    new_name: Seq<char>,
    installed: Option<Seq<char>>,
    path: Seq<char>,
)
    requires
        is_edit_script(diff_lines(base), diff_lines(edited), hs),
        no_lone_cr(base),
        no_lone_cr(edited),
        !old_name.contains('\n'),
        !new_name.contains('\n'),
        base.len() < usize::MAX,
    ensures
        ({
            let patch = Some(normalized(split_inclusive(diff_text(hs, old_name, new_name))));
            &&& yours_of_file(base, patch, installed) matches Ok(t) && same_up_to_final_newline(
                t,
                edited,
            )
            &&& yours_of_single(name, base, patch, installed, path) matches Ok(t)
                && same_up_to_final_newline(t, edited)
        }),
{
    law_patch_round_trip(base, edited, hs, old_name, new_name);
}

/// What was pinned is what is merged: the patch that pinning keeps of an edit makes the edited text
/// of the common ancestor again.
pub proof fn law_pinned_edit_is_merged(
    base: Seq<char>,
    edited: Seq<char>,
    label: Seq<char>,
    installed: Option<Seq<char>>,
)
    requires
        is_unified_diff(
            unified_diff_text(base, edited, "a/"@ + label, "b/"@ + label),
            base,
            edited,
            "a/"@ + label,
            "b/"@ + label,
        ),
        no_lone_cr(base),
        no_lone_cr(edited),
        !label.contains('\n'),
        base.len() < usize::MAX,
    ensures
        yours_of_file(base, Some(patch_between(base, edited, label)), installed) matches Ok(t)
            && same_up_to_final_newline(t, edited),
{
    law_patch_restores(base, edited, label);
    if base == edited {
        crate::patch::law_empty_patch_is_identity(base);
    }
}

/// A stored patch counts for more than what is installed, and fails the merge where it does not
/// apply. Without one the installed text is the version of the user. Where a file of a directory is
/// not installed either, it counts as not edited; a one-file entry has to be installed.
pub proof fn law_whose_version_is_merged(
    name: Seq<char>,
    base: Seq<char>,
    patch: Seq<char>,
    text: Seq<char>,
    installed: Option<Seq<char>>,
    path: Seq<char>,
)
    ensures
        yours_of_file(base, Some(patch), installed) == patched(base, patch),
        yours_of_single(name, base, Some(patch), installed, path) == patched(base, patch),
        yours_of_file(base, None, Some(text)) == Ok::<Seq<char>, Seq<char>>(text),
        yours_of_single(name, base, None, Some(text), path) == Ok::<Seq<char>, Seq<char>>(text),
        yours_of_file(base, None, None) == Ok::<Seq<char>, Seq<char>>(base),
        yours_of_single(name, base, None, None, path) is Err,
{
}

/// A clean merge stands as it is. After conflicts only a text that came back from the editor stands,
/// and only where no conflict mark is left in it.
pub proof fn law_no_conflict_mark_is_kept(
    merged: Seq<char>,
    has_conflicts: bool,
    edited: Option<Seq<char>>,
    step: MergeStep,
)
    requires
        is_merge_step(merged, has_conflicts, edited, step),
    ensures
        !has_conflicts ==> (step matches MergeStep::Merged(t) && t@ == merged),
        has_conflicts ==> (step matches MergeStep::Merged(t) ==> edited == Some(t@) && !has_text(
            t@,
            "<<<<<<<"@,
        )),
        step is OpenEditor <==> has_conflicts && edited is None,
        step is StillConflicted <==> has_conflicts && (edited matches Some(e) && has_text(
            e,
            "<<<<<<<"@,
        )),
{
}

/// What is said of a resolved directory entry names the files that keep a patch, and that none is
/// needed exactly where there are none.
pub proof fn law_note_of_a_resolved_directory(name: Seq<char>, pinned: Seq<Seq<char>>)
    ensures
        starts_with(dir_note(name, pinned), "  merged result matches upstream"@) <==> pinned.len()
            == 0,
        pinned.len() > 0 ==> dir_note(name, pinned) == "  updated .skillfile/patches/ for '"@ + name
            + "' ("@ + join(pinned, ", "@) + ")"@,
{
    let t = dir_note(name, pinned);
    reveal_strlit("  merged result matches upstream");
    reveal_strlit("  merged result matches upstream \u{2014} no pin needed for '");
    reveal_strlit("  updated .skillfile/patches/ for '");
    let p = "  merged result matches upstream"@;
    if pinned.len() == 0 {
        assert(t.subrange(0, p.len() as int) =~= p);
    } else {
        assert(t[2] == 'u');
        if starts_with(t, p) {
            assert(t.subrange(0, p.len() as int)[2] == 'm');
        }
    }
}

} // verus!
