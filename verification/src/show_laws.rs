//! What the diffs that are shown of an entry say.

use vstd::prelude::*;
use crate::commands::diff::{
    conflict_dir_diffs, conflict_dir_output, conflict_single_output, local_diff,
    local_single_output, upstream_diff,
};
use crate::commands::files::{names_of, text_or_empty, FileView};
use crate::commands::pin::pin_report_text;
use crate::lines::split_inclusive;
use crate::models::short_sha_text;
use crate::patch::patched;
use crate::patch_laws::{law_patch_round_trip, no_lone_cr, same_up_to_final_newline};
use crate::sorted::{law_sorted_set, sorted_set};
use crate::text::{concat, ends_with, starts_with};
use crate::unified::{
    diff_lines, diff_text, is_edit_script, is_unified_diff, normalized, unified_diff_text, DiffHunk,
};

verus! {

/// How a file of upstream is called in the diff to the installed one.
pub open spec fn shown_upstream(shown: Seq<char>, sha: Seq<char>) -> Seq<char> {
    "a/"@ + shown + " (upstream sha="@ + short_sha_text(sha) + ")"@
}

/// How an installed file is called in a diff.
pub open spec fn shown_installed(shown: Seq<char>) -> Seq<char> {
    "b/"@ + shown + " (installed)"@
}

/// How a file of one of the two revisions of a conflict is called.
pub open spec fn shown_revision(shown: Seq<char>, age: Seq<char>, sha: Seq<char>) -> Seq<char> {
    shown + " ("@ + age + " upstream sha="@ + short_sha_text(sha) + ")"@
}

/// Whether what the diff of two texts is called is a unified diff from the first to the second, and
/// empty where they are the same, as that of [`show_diff`](crate::unified::show_diff) is.
pub open spec fn is_true_diff(
    original: Seq<char>,
    modified: Seq<char>,
    old_name: Seq<char>,
    new_name: Seq<char>,
) -> bool {
    let d = unified_diff_text(original, modified, old_name, new_name);
    is_unified_diff(d, original, modified, old_name, new_name) && (d.len() == 0 <==> original
        == modified)
}

proof fn lemma_diff_applies(
    original: Seq<char>,
    modified: Seq<char>,
    old_name: Seq<char>,
    new_name: Seq<char>,
)
    requires
        is_true_diff(original, modified, old_name, new_name),
        no_lone_cr(original),
        no_lone_cr(modified),
        !old_name.contains('\n'),
        !new_name.contains('\n'),
        original.len() < usize::MAX,
    ensures
        patched(
            original,
            normalized(split_inclusive(unified_diff_text(original, modified, old_name, new_name))),
        ) matches Ok(t) && same_up_to_final_newline(t, modified),
{
    let hs = choose|hs: Seq<DiffHunk>|
        unified_diff_text(original, modified, old_name, new_name) == diff_text(
            hs,
            old_name,
            new_name,
        ) && #[trigger] is_edit_script(diff_lines(original), diff_lines(modified), hs);
    law_patch_round_trip(original, modified, hs, old_name, new_name);
}

/// The diff that is shown of an installed file leads from upstream to what is installed: applied to
/// the upstream text, it gives the installed one. It is empty exactly where the two are the same.
pub proof fn law_shown_diff_leads_to_installed(
    shown: Seq<char>,
    sha: Seq<char>,
    upstream: Seq<char>,
    installed: Seq<char>,
)
    requires
        is_true_diff(upstream, installed, shown_upstream(shown, sha), shown_installed(shown)),
        no_lone_cr(upstream),
        no_lone_cr(installed),
        !shown_upstream(shown, sha).contains('\n'),
        !shown_installed(shown).contains('\n'),
        upstream.len() < usize::MAX,
    ensures
        patched(
            upstream,
            normalized(split_inclusive(local_diff(shown, sha, upstream, installed))),
        ) matches Ok(t) && same_up_to_final_newline(t, installed),
        local_diff(shown, sha, upstream, installed).len() == 0 <==> upstream == installed,
{
    lemma_diff_applies(
        upstream,
        installed,
        shown_upstream(shown, sha),
        shown_installed(shown),
    );
}

/// An installed file is called clean exactly where it is as upstream, and else its diff is shown. A
/// file that is not cached, or not installed, cannot be compared.
pub proof fn law_clean_is_as_upstream(
    name: Seq<char>,
    sha: Seq<char>,
    upstream: Seq<char>,
    installed: Seq<char>,
    other: Option<Seq<char>>,
)
    requires
        is_true_diff(
            upstream,
            installed,
            shown_upstream(name + ".md"@, sha),
            shown_installed(name + ".md"@),
        ),
    ensures
        upstream == installed ==> local_single_output(name, sha, Some(upstream), Some(installed))
            == Ok::<Seq<char>, Seq<char>>(
            "'"@ + name + "' is clean \u{2014} no local modifications\n"@,
        ),
        upstream != installed ==> local_single_output(name, sha, Some(upstream), Some(installed))
            == Ok::<Seq<char>, Seq<char>>(local_diff(name + ".md"@, sha, upstream, installed)),
        local_single_output(name, sha, None, other) is Err,
        local_single_output(name, sha, other, None) is Err,
{
}

/// The diff of a conflict leads from the old revision of upstream to the new one.
pub proof fn law_conflict_diff_leads_to_new(
    shown: Seq<char>,
    old_sha: Seq<char>,
    new_sha: Seq<char>,
    old_text: Seq<char>,
    new_text: Seq<char>,
)
    requires
        is_true_diff(
            old_text,
            new_text,
            shown_revision(shown, "old"@, old_sha),
            shown_revision(shown, "new"@, new_sha),
        ),
        no_lone_cr(old_text),
        no_lone_cr(new_text),
        !shown_revision(shown, "old"@, old_sha).contains('\n'),
        !shown_revision(shown, "new"@, new_sha).contains('\n'),
        old_text.len() < usize::MAX,
    ensures
        patched(
            old_text,
            normalized(
                split_inclusive(upstream_diff(shown, old_sha, new_sha, old_text, new_text)),
            ),
        ) matches Ok(t) && same_up_to_final_newline(t, new_text),
{
    lemma_diff_applies(
        old_text,
        new_text,
        shown_revision(shown, "old"@, old_sha),
        shown_revision(shown, "new"@, new_sha),
    );
    lemma_shown_revisions(shown, old_sha, new_sha);
}

proof fn lemma_shown_revisions(shown: Seq<char>, old_sha: Seq<char>, new_sha: Seq<char>)
    ensures
        shown_revision(shown, "old"@, old_sha) == shown + " (old upstream sha="@ + short_sha_text(
            old_sha,
        ) + ")"@,
        shown_revision(shown, "new"@, new_sha) == shown + " (new upstream sha="@ + short_sha_text(
            new_sha,
        ) + ")"@,
{
    reveal_strlit(" (");
    reveal_strlit("old");
    reveal_strlit("new");
    reveal_strlit(" upstream sha=");
    reveal_strlit(" (old upstream sha=");
    reveal_strlit(" (new upstream sha=");
    assert(" (old upstream sha="@ =~= " ("@ + "old"@ + " upstream sha="@);
    assert(" (new upstream sha="@ =~= " ("@ + "new"@ + " upstream sha="@);
    assert(shown_revision(shown, "old"@, old_sha) =~= shown + " (old upstream sha="@
        + short_sha_text(old_sha) + ")"@);
    assert(shown_revision(shown, "new"@, new_sha) =~= shown + " (new upstream sha="@
        + short_sha_text(new_sha) + ")"@);
}

/// What is shown of a one-file entry in conflict is the diff between the two revisions, and that
/// upstream did not change exactly where they are the same.
pub proof fn law_conflict_of_a_file(
    name: Seq<char>,
    old_sha: Seq<char>,
    new_sha: Seq<char>,
    old_text: Seq<char>,
    new_text: Seq<char>,
)
    requires
        is_true_diff(
            old_text,
            new_text,
            shown_revision(name + ".md"@, "old"@, old_sha),
            shown_revision(name + ".md"@, "new"@, new_sha),
        ),
    ensures
        old_text == new_text ==> starts_with(
            conflict_single_output(name, old_sha, new_sha, old_text, new_text),
            "No upstream changes detected"@,
        ),
        old_text != new_text ==> conflict_single_output(name, old_sha, new_sha, old_text, new_text)
            == upstream_diff(name + ".md"@, old_sha, new_sha, old_text, new_text),
{
    lemma_shown_revisions(name + ".md"@, old_sha, new_sha);
    if old_text == new_text {
        reveal_strlit("No upstream changes detected");
        reveal_strlit(
            "No upstream changes detected (patch conflict may be due to local file drift).\n",
        );
        let t = conflict_single_output(name, old_sha, new_sha, old_text, new_text);
        assert(t.subrange(0, 28) =~= "No upstream changes detected"@);
    }
}

/// The diff of one file of a directory entry in conflict.
pub open spec fn revision_diff(
    name: Seq<char>,
    old_sha: Seq<char>,
    new_sha: Seq<char>,
    old_files: Seq<FileView>,
    new_files: Seq<FileView>,
) -> spec_fn(Seq<char>) -> Seq<char> {
    |f: Seq<char>|
        upstream_diff(
            name + "/"@ + f,
            old_sha,
            new_sha,
            text_or_empty(old_files, f),
            text_or_empty(new_files, f),
        )
}

proof fn lemma_conflict_diffs(
    name: Seq<char>,
    old_sha: Seq<char>,
    new_sha: Seq<char>,
    filenames: Seq<Seq<char>>,
    old_files: Seq<FileView>,
    new_files: Seq<FileView>,
)
    ensures
        conflict_dir_diffs(name, old_sha, new_sha, filenames, old_files, new_files) == concat(
            filenames.map_values(revision_diff(name, old_sha, new_sha, old_files, new_files)),
        ),
    decreases filenames.len(),
{
    let g = revision_diff(name, old_sha, new_sha, old_files, new_files);
    if filenames.len() > 0 {
        let init = filenames.drop_last();
        lemma_conflict_diffs(name, old_sha, new_sha, init, old_files, new_files);
        assert(filenames.map_values(g).drop_last() =~= init.map_values(g));
    }
}

/// What is shown of a directory entry in conflict is one diff after the other, one for each name
/// that a file has in either revision, in the order of the names; and that upstream did not change
/// where all of these are empty.
pub proof fn law_conflict_of_a_directory(
    name: Seq<char>,
    old_sha: Seq<char>,
    new_sha: Seq<char>,
    old_files: Seq<FileView>,
    new_files: Seq<FileView>,
)
    ensures
        ({
            let ns = sorted_set(names_of(old_files) + names_of(new_files));
            let ds = concat(
                ns.map_values(revision_diff(name, old_sha, new_sha, old_files, new_files)),
            );
            let t = conflict_dir_output(name, old_sha, new_sha, old_files, new_files);
            &&& ds.len() > 0 ==> t == ds
            &&& ds.len() == 0 ==> starts_with(t, "No upstream changes detected"@)
            &&& forall|i: int| 0 <= i < old_files.len() ==> ns.contains((#[trigger] old_files[i]).name)
            &&& forall|i: int| 0 <= i < new_files.len() ==> ns.contains((#[trigger] new_files[i]).name)
        }),
{
    let all = names_of(old_files) + names_of(new_files);
    let ns = sorted_set(all);
    lemma_conflict_diffs(name, old_sha, new_sha, ns, old_files, new_files);
    law_sorted_set(all);
    assert forall|i: int| 0 <= i < old_files.len() implies ns.contains(
        (#[trigger] old_files[i]).name,
    ) by {
        assert(all[i] == old_files[i].name);
        assert(all.contains(old_files[i].name));
    }
    assert forall|i: int| 0 <= i < new_files.len() implies ns.contains(
        (#[trigger] new_files[i]).name,
    ) by {
        assert(all[old_files.len() + i] == new_files[i].name);
        assert(all.contains(new_files[i].name));
    }
    reveal_strlit("No upstream changes detected");
    reveal_strlit("No upstream changes detected (patch conflict may be due to local file drift).\n");
    let t = conflict_dir_output(name, old_sha, new_sha, old_files, new_files);
    if conflict_dir_diffs(name, old_sha, new_sha, ns, old_files, new_files).len() == 0 {
        assert(t.subrange(0, 28) =~= "No upstream changes detected"@);
    }
}

/// What pinning says is shown as it is, with where the edits went behind it once they are kept, and
/// with a mark behind it where nothing was kept on purpose.
pub proof fn law_pin_report(status: Seq<char>)
    ensures
        status.is_prefix_of(pin_report_text(status)),
        ends_with(pin_report_text(status), "saved to .skillfile/patches/"@) ==> starts_with(
            status,
            "Pinned"@,
        ) || ends_with(status, "saved to .skillfile/patches/"@),
        starts_with(status, "Pinned"@) ==> ends_with(
            pin_report_text(status),
            "saved to .skillfile/patches/"@,
        ),
        starts_with(status, "Would pin"@) ==> ends_with(pin_report_text(status), " [dry-run]"@),
        !starts_with(status, "Pinned"@) && !starts_with(status, "Would pin"@) ==> pin_report_text(
            status,
        ) == status,
{
    reveal_strlit("Pinned");
    reveal_strlit("Would pin");
    reveal_strlit("saved to .skillfile/patches/");
    reveal_strlit(" \u{2014} customisations saved to .skillfile/patches/");
    reveal_strlit(" [dry-run]");
    let t = pin_report_text(status);
    assert(t.subrange(0, status.len() as int) =~= status);
    let e = "saved to .skillfile/patches/"@;
    let d = " [dry-run]"@;
    if starts_with(status, "Pinned"@) {
        assert(status.subrange(0, 6)[0] == 'P');
        assert(t.subrange(t.len() - e.len(), t.len() as int) =~= e);
        if starts_with(status, "Would pin"@) {
            assert(status.subrange(0, 9)[0] == 'W');
        }
    } else if starts_with(status, "Would pin"@) {
        assert(t.subrange(t.len() - d.len(), t.len() as int) =~= d);
        assert(t.last() == ']');
        if ends_with(t, e) {
            assert(t.subrange(t.len() - e.len(), t.len() as int)[e.len() - 1] == '/');
        }
    }
}

} // verus!
