//! What counts as an edit of an installed entry, and what pinning and showing edits promise.

use vstd::prelude::*;
use crate::commands::diff::{local_diff, local_dir_diffs, local_dir_output};
use crate::commands::files::{file_views, names_of, text_of, text_or_empty, FileView};
use crate::commands::installed_variants::{dir_views, single_views, DirView, SingleView};
use crate::commands::multi_target::{changed_files, modified_dirs, modified_singles};
use crate::commands::pin::{
    dir_patches, nothing_to_pin, pinned, pinned_dir, pinned_names, pinned_single, PatchFileView,
    PinSource,
};
use crate::commands::resolve::merged_patches;
use crate::commands::status::{locally_modified, LocalState};
use crate::models::EntryView;
use crate::text::concat;
use crate::unified::patch_between;

verus! {

// ---------------------------------------------------------------------------
// Files by name
// ---------------------------------------------------------------------------

/// Whether a position is that of the first file of a name.
pub open spec fn first_named(fs: Seq<FileView>, name: Seq<char>, k: int) -> bool {
    0 <= k < fs.len() && fs[k].name == name && forall|j: int|
        0 <= j < k ==> (#[trigger] fs[j]).name != name
}

/// A file is found by its name: the first of that name, and only where there is one.
pub proof fn law_file_by_name(fs: Seq<FileView>, name: Seq<char>)
    ensures
        text_of(fs, name) is Some <==> exists|k: int| #[trigger] first_named(fs, name, k),
        text_of(fs, name) is None <==> forall|k: int|
            0 <= k < fs.len() ==> (#[trigger] fs[k]).name != name,
        forall|k: int| #[trigger]
            first_named(fs, name, k) ==> text_of(fs, name) == Some(fs[k].text),
    decreases fs.len(),
{
    if fs.len() > 0 {
        let rest = fs.skip(1);
        law_file_by_name(rest, name);
        if fs[0].name == name {
            assert(first_named(fs, name, 0));
        } else {
            assert forall|k: int| #[trigger] first_named(rest, name, k) implies first_named(
                fs,
                name,
                k + 1,
            ) by {
                assert forall|j: int| 0 <= j < k + 1 implies (#[trigger] fs[j]).name != name by {
                    if j > 0 {
                        assert(rest[j - 1].name != name);
                    }
                }
            }
            assert forall|k: int| #[trigger] first_named(fs, name, k) implies first_named(
                rest,
                name,
                k - 1,
            ) && fs[k] == rest[k - 1] by {
                assert forall|j: int| 0 <= j < k - 1 implies (#[trigger] rest[j]).name != name by {
                    assert(fs[j + 1].name != name);
                }
            }
            assert forall|k: int| 0 <= k < rest.len() implies rest[k] == fs[k + 1] by {}
            if text_of(rest, name) is None {
                assert forall|k: int| 0 <= k < fs.len() implies (#[trigger] fs[k]).name != name by {
                    if k > 0 {
                        assert(rest[k - 1].name != name);
                    }
                }
            } else {
                let k = choose|k: int| first_named(rest, name, k);
                assert(fs[k + 1].name == name);
            }
        }
    }
}

// ---------------------------------------------------------------------------
// Edited copies
// ---------------------------------------------------------------------------

/// A copy of a one-file entry counts as edited exactly where its text is not the upstream text. The
/// edited copies keep their order.
pub proof fn law_edited_copies(cache: Seq<char>, vs: Seq<SingleView>)
    ensures
        modified_singles(cache, vs) == vs.filter(|v: SingleView| v.content != cache),
        forall|i: int|
            0 <= i < vs.len() ==> ((#[trigger] vs[i]).content != cache <==> modified_singles(
                cache,
                vs,
            ).contains(vs[i])),
        forall|j: int|
            0 <= j < modified_singles(cache, vs).len() ==> (#[trigger] modified_singles(
                cache,
                vs,
            )[j]).content != cache && vs.contains(modified_singles(cache, vs)[j]),
        modified_singles(cache, vs).len() == 0 <==> forall|i: int|
            0 <= i < vs.len() ==> (#[trigger] vs[i]).content == cache,
    decreases vs.len(),
{
    let p = |v: SingleView| v.content != cache;
    let m = modified_singles(cache, vs);
    reveal(Seq::filter);
    if vs.len() > 0 {
        let init = vs.drop_last();
        let before = modified_singles(cache, init);
        law_edited_copies(cache, init);
        assert(vs.last() == vs[vs.len() - 1]);
        assert forall|i: int| 0 <= i < vs.len() && (#[trigger] vs[i]).content
            != cache implies m.contains(vs[i]) by {
            if i < init.len() {
                assert(init[i] == vs[i]);
                let j = choose|j: int| 0 <= j < before.len() && before[j] == vs[i];
                assert(m[j] == vs[i]);
            } else {
                assert(m[m.len() - 1] == vs[i]);
            }
        }
        assert forall|j: int| 0 <= j < m.len() implies (#[trigger] m[j]).content != cache
            && vs.contains(m[j]) by {
            if j < before.len() {
                assert(m[j] == before[j]);
                let i = choose|i: int| 0 <= i < init.len() && init[i] == before[j];
                assert(vs[i] == m[j]);
            } else {
                assert(vs[vs.len() - 1] == m[j]);
            }
        }
        if m.len() == 0 {
            assert forall|i: int| 0 <= i < vs.len() implies (#[trigger] vs[i]).content == cache by {
                if vs[i].content != cache {
                    assert(m.contains(vs[i]));
                }
            }
        } else {
            let k = choose|k: int| 0 <= k < vs.len() && vs[k] == m[0];
            assert(vs.contains(m[0]));
            assert(vs[k].content != cache);
        }
    }
}

/// Pinning a one-file entry that is locked, cached and installed says that there is nothing to pin
/// exactly where every copy is as upstream, and fails exactly where two copies were edited in
/// different ways. Else it keeps the patch from upstream to the edited text.
pub proof fn law_pin_keeps_the_edit(
    name: Seq<char>,
    cache: Seq<char>,
    vs: Seq<SingleView>,
    dry_run: bool,
)
    ensures
        pinned_single(name, cache, vs, dry_run) is Err <==> exists|i: int, j: int|
            0 <= i < vs.len() && 0 <= j < vs.len() && (#[trigger] vs[i]).content != cache && (
            #[trigger] vs[j]).content != cache && vs[i].content != vs[j].content,
        pinned_single(name, cache, vs, dry_run) matches Ok(p) ==> {
            &&& p.status == nothing_to_pin(name) <==> forall|i: int|
                0 <= i < vs.len() ==> (#[trigger] vs[i]).content == cache
            &&& !dry_run ==> (p.patch is None <==> forall|i: int|
                0 <= i < vs.len() ==> (#[trigger] vs[i]).content == cache)
            &&& !dry_run ==> forall|i: int|
                0 <= i < vs.len() && (#[trigger] vs[i]).content != cache ==> p.patch == Some(
                    patch_between(cache, vs[i].content, name + ".md"@),
                )
        },
{
    let m = modified_singles(cache, vs);
    law_edited_copies(cache, vs);
    lemma_statuses_differ(name);
    if m.len() > 0 {
        let a = choose|a: int| 0 <= a < vs.len() && vs[a] == m[0];
        assert(vs.contains(m[0]));
        assert(vs[a].content != cache);
        let all = forall|i: int| 0 <= i < m.len() ==> (#[trigger] m[i]).content == m[0].content;
        if all {
            assert forall|i: int| 0 <= i < vs.len() && (#[trigger] vs[i]).content
                != cache implies vs[i].content == m[0].content by {
                assert(m.contains(vs[i]));
                let k = choose|k: int| 0 <= k < m.len() && m[k] == vs[i];
                assert(m[k].content == m[0].content);
            }
        } else {
            let k = choose|k: int| 0 <= k < m.len() && (#[trigger] m[k]).content != m[0].content;
            assert(vs.contains(m[k]));
            let b = choose|b: int| 0 <= b < vs.len() && vs[b] == m[k];
            assert(vs[b].content != vs[a].content);
        }
    } else {
        assert forall|i: int| 0 <= i < vs.len() implies (#[trigger] vs[i]).content == cache by {}
    }
}

proof fn lemma_statuses_differ(name: Seq<char>)
    ensures
        forall|rest: Seq<char>|
            #![trigger "Pinned '"@ + name + rest]
            "Pinned '"@ + name + rest != nothing_to_pin(name),
        forall|rest: Seq<char>|
            #![trigger "Would pin '"@ + name + rest]
            "Would pin '"@ + name + rest != nothing_to_pin(name),
{
    reveal_strlit("'");
    reveal_strlit("Pinned '");
    reveal_strlit("Would pin '");
    let n = nothing_to_pin(name);
    assert(n[0] == '\'');
    assert forall|rest: Seq<char>| #![trigger "Pinned '"@ + name + rest]
        "Pinned '"@ + name + rest != n by {
        assert(("Pinned '"@ + name + rest)[0] == 'P');
    }
    assert forall|rest: Seq<char>| #![trigger "Would pin '"@ + name + rest]
        "Would pin '"@ + name + rest != n by {
        assert(("Would pin '"@ + name + rest)[0] == 'W');
    }
}

// ---------------------------------------------------------------------------
// Edited directories
// ---------------------------------------------------------------------------

/// Whether the file of a name that a copy holds has another text than the upstream one.
pub open spec fn differs(files: Seq<FileView>, upstream: FileView) -> bool {
    exists|k: int| #[trigger]
        first_named(files, upstream.name, k) && files[k].text != upstream.text
}

/// The test whether the file that a copy holds differs from an upstream file.
pub open spec fn differing(files: Seq<FileView>) -> spec_fn(FileView) -> bool {
    |c: FileView| differs(files, c)
}

/// Whether a copy of a directory holds one of the upstream files in another text.
pub open spec fn is_edited(cache: Seq<FileView>, files: Seq<FileView>) -> bool {
    exists|i: int| 0 <= i < cache.len() && differs(files, #[trigger] cache[i])
}

/// The changed files of a copy are exactly the upstream files that it holds in another text, in the
/// order of the upstream files and with the text of the copy. A file that a copy lacks, or has
/// besides the upstream ones, is no change.
pub proof fn law_changed_files(cache: Seq<FileView>, files: Seq<FileView>)
    ensures
        names_of(changed_files(cache, files)) == names_of(
            cache.filter(differing(files)),
        ),
        forall|j: int|
            0 <= j < changed_files(cache, files).len() ==> exists|k: int|
                first_named(files, (#[trigger] changed_files(cache, files)[j]).name, k)
                    && #[trigger] files[k].text == changed_files(cache, files)[j].text,
        forall|i: int, k: int|
            0 <= i < cache.len() && #[trigger] first_named(files, (#[trigger] cache[i]).name, k)
                && files[k].text != cache[i].text ==> changed_files(cache, files).contains(
                FileView { name: cache[i].name, text: files[k].text },
            ),
        changed_files(cache, files).len() > 0 <==> is_edited(cache, files),
    decreases cache.len(),
{
    reveal(Seq::filter);
    let p = differing(files);
    let r = changed_files(cache, files);
    if cache.len() == 0 {
        assert(names_of(r) =~= names_of(cache.filter(p)));
    } else {
        let init = cache.drop_last();
        let c = cache.last();
        let before = changed_files(init, files);
        law_changed_files(init, files);
        law_file_by_name(files, c.name);
        assert(c == cache[cache.len() - 1]);
        assert(differs(files, c) <==> (text_of(files, c.name) matches Some(t) && t != c.text)) by {
            if text_of(files, c.name) is Some {
                let k = choose|k: int| first_named(files, c.name, k);
                assert(text_of(files, c.name) == Some(files[k].text));
            }
        }
        assert(names_of(r) =~= names_of(cache.filter(p))) by {
            let f = init.filter(p);
            if differs(files, c) {
                assert(names_of(r) =~= names_of(before).push(c.name));
                assert(cache.filter(p) =~= f.push(c));
                assert(names_of(f.push(c)) =~= names_of(f).push(c.name));
            }
        }
        assert forall|j: int| 0 <= j < r.len() implies exists|k: int|
            first_named(files, (#[trigger] r[j]).name, k) && #[trigger] files[k].text == r[j].text by {
            if j < before.len() {
                assert(r[j] == before[j]);
                let k = choose|k: int|
                    first_named(files, before[j].name, k) && #[trigger] files[k].text
                        == before[j].text;
                assert(files[k].text == r[j].text);
            } else {
                let k = choose|k: int| first_named(files, c.name, k);
                assert(files[k].text == r[j].text);
            }
        }
        assert forall|i: int, k: int|
            0 <= i < cache.len() && #[trigger] first_named(files, (#[trigger] cache[i]).name, k)
                && files[k].text != cache[i].text implies r.contains(
            FileView { name: cache[i].name, text: files[k].text },
        ) by {
            let want = FileView { name: cache[i].name, text: files[k].text };
            if i < init.len() {
                assert(init[i] == cache[i]);
                assert(before.contains(want));
                let j = choose|j: int| 0 <= j < before.len() && before[j] == want;
                assert(r[j] == want);
            } else {
                assert(r[r.len() - 1] == want);
            }
        }
        if r.len() > 0 {
            if before.len() > 0 {
                let i = choose|i: int| 0 <= i < init.len() && differs(files, #[trigger] init[i]);
                assert(differs(files, cache[i]));
            } else {
                assert(differs(files, cache[cache.len() - 1]));
            }
        }
        if is_edited(cache, files) {
            let i = choose|i: int| 0 <= i < cache.len() && differs(files, #[trigger] cache[i]);
            let k = choose|k: int| #[trigger]
                first_named(files, cache[i].name, k) && files[k].text != cache[i].text;
            assert(r.contains(FileView { name: cache[i].name, text: files[k].text }));
        }
    }
}

/// Whether a copy of a directory is edited, and its changed files are these.
pub open spec fn edited_as(
    cache: Seq<FileView>,
    vs: Seq<DirView>,
    i: int,
    files: Seq<FileView>,
) -> bool {
    0 <= i < vs.len() && is_edited(cache, vs[i].files) && changed_files(cache, vs[i].files) == files
}

/// The edited copies of a directory are exactly those that hold an upstream file in another text, in
/// their order, each with its changed files.
pub proof fn law_edited_dirs(cache: Seq<FileView>, vs: Seq<DirView>)
    ensures
        modified_dirs(cache, vs) == vs.filter(
            |v: DirView| is_edited(cache, v.files),
        ).map_values(
            |v: DirView| DirView { label: v.label, files: changed_files(cache, v.files) },
        ),
    decreases vs.len(),
{
    reveal(Seq::filter);
    let p = |v: DirView| is_edited(cache, v.files);
    let g = |v: DirView| DirView { label: v.label, files: changed_files(cache, v.files) };
    if vs.len() == 0 {
        assert(modified_dirs(cache, vs) =~= vs.filter(p).map_values(g));
    } else {
        let init = vs.drop_last();
        law_edited_dirs(cache, init);
        law_changed_files(cache, vs.last().files);
        let f = init.filter(p);
        if p(vs.last()) {
            assert(f.push(vs.last()).map_values(g) =~= f.map_values(g).push(g(vs.last())));
        }
        assert(modified_dirs(cache, vs) =~= vs.filter(p).map_values(g));
    }
}

/// Each edited copy is among the edited ones.
proof fn lemma_edited_is_there(cache: Seq<FileView>, vs: Seq<DirView>, i: int)
    requires
        0 <= i < vs.len(),
        is_edited(cache, vs[i].files),
    ensures
        modified_dirs(cache, vs).len() > 0,
        exists|j: int|
            0 <= j < modified_dirs(cache, vs).len() && (#[trigger] modified_dirs(cache, vs)[j]).files
                == changed_files(cache, vs[i].files),
    decreases vs.len(),
{
    let init = vs.drop_last();
    let m = modified_dirs(cache, vs);
    let before = modified_dirs(cache, init);
    law_changed_files(cache, vs.last().files);
    if i < init.len() {
        assert(init[i] == vs[i]);
        lemma_edited_is_there(cache, init, i);
        let j = choose|j: int|
            0 <= j < before.len() && (#[trigger] before[j]).files == changed_files(
                cache,
                init[i].files,
            );
        assert(m[j] == before[j]);
    } else {
        assert(m[m.len() - 1].files == changed_files(cache, vs[i].files));
    }
}

/// Each of the edited copies is an edited copy.
proof fn lemma_there_is_edited(cache: Seq<FileView>, vs: Seq<DirView>, j: int) -> (i: int)
    requires
        0 <= j < modified_dirs(cache, vs).len(),
    ensures
        edited_as(cache, vs, i, modified_dirs(cache, vs)[j].files),
    decreases vs.len(),
{
    let init = vs.drop_last();
    let before = modified_dirs(cache, init);
    law_changed_files(cache, vs.last().files);
    if j < before.len() {
        let i = lemma_there_is_edited(cache, init, j);
        assert(modified_dirs(cache, vs)[j] == before[j]);
        assert(vs[i] == init[i]);
        i
    } else {
        vs.len() - 1
    }
}

/// Whether no two files share a name.
pub open spec fn distinct_names(fs: Seq<FileView>) -> bool {
    forall|i: int, j: int| 0 <= i < j < fs.len() ==> (#[trigger] fs[i]).name != (#[trigger] fs[j]).name
}

proof fn lemma_dir_patches(cache: Seq<FileView>, changed: Seq<FileView>)
    ensures
        dir_patches(cache, changed).len() == cache.len(),
        forall|i: int|
            0 <= i < cache.len() ==> (#[trigger] dir_patches(cache, changed)[i]) == (
            PatchFileView {
                filename: cache[i].name,
                patch: match text_of(changed, cache[i].name) {
                    Some(t) => if t == cache[i].text {
                        None
                    } else {
                        Some(patch_between(cache[i].text, t, cache[i].name))
                    },
                    None => None,
                },
            }),
    decreases cache.len(),
{
    if cache.len() > 0 {
        let init = cache.drop_last();
        lemma_dir_patches(init, changed);
        let all = dir_patches(cache, changed);
        assert forall|i: int| 0 <= i < cache.len() implies (#[trigger] all[i]) == (PatchFileView {
            filename: cache[i].name,
            patch: match text_of(changed, cache[i].name) {
                Some(t) => if t == cache[i].text {
                    None
                } else {
                    Some(patch_between(cache[i].text, t, cache[i].name))
                },
                None => None,
            },
        }) by {
            if i < init.len() {
                assert(all[i] == dir_patches(init, changed)[i]);
                assert(init[i] == cache[i]);
            }
        }
    }
}

/// What the changed files say of one upstream file, where no two share a name.
proof fn lemma_changed_text(cache: Seq<FileView>, files: Seq<FileView>, i: int)
    requires
        distinct_names(cache),
        0 <= i < cache.len(),
    ensures
        text_of(changed_files(cache, files), cache[i].name) == (if differs(files, cache[i]) {
            text_of(files, cache[i].name)
        } else {
            None
        }),
{
    let r = changed_files(cache, files);
    let c = cache[i];
    law_changed_files(cache, files);
    law_file_by_name(r, c.name);
    law_file_by_name(files, c.name);
    if differs(files, c) {
        let k = choose|k: int| #[trigger] first_named(files, c.name, k) && files[k].text != c.text;
        let want = FileView { name: c.name, text: files[k].text };
        assert(r.contains(want));
        let j = choose|j: int| 0 <= j < r.len() && r[j] == want;
        assert(r[j].name == c.name);
        let f = choose|f: int| first_named(r, c.name, f);
        let h = choose|h: int|
            first_named(files, r[f].name, h) && #[trigger] files[h].text == r[f].text;
        assert(h == k) by {
            if h < k {
                assert(files[h].name != c.name);
            } else if k < h {
                assert(files[k].name != c.name);
            }
        }
    } else if text_of(r, c.name) is Some {
        let f = choose|f: int| first_named(r, c.name, f);
        let p = differing(files);
        let kept = cache.filter(p);
        assert(names_of(r)[f] == c.name);
        assert(names_of(kept).len() == kept.len() && names_of(r).len() == r.len());
        assert(names_of(kept)[f] == c.name);
        cache.lemma_filter_pred(p, f);
        lemma_kept_is_there(cache, p, f);
        let q = choose|q: int| 0 <= q < cache.len() && cache[q] == kept[f];
        assert(q == i) by {
            if q < i {
                assert(cache[q].name != cache[i].name);
            } else if i < q {
                assert(cache[i].name != cache[q].name);
            }
        }
    }
}

proof fn lemma_kept_is_there(fs: Seq<FileView>, p: spec_fn(FileView) -> bool, j: int)
    requires
        0 <= j < fs.filter(p).len(),
    ensures
        fs.contains(fs.filter(p)[j]),
    decreases fs.len(),
{
    reveal(Seq::filter);
    if fs.len() > 0 {
        let init = fs.drop_last();
        let kept = fs.filter(p);
        if j < init.filter(p).len() {
            lemma_kept_is_there(init, p, j);
            assert(kept[j] == init.filter(p)[j]);
            let q = choose|q: int| 0 <= q < init.len() && init[q] == kept[j];
            assert(fs[q] == kept[j]);
        } else {
            assert(fs[fs.len() - 1] == kept[j]);
        }
    }
}

/// The patch that an upstream file needs for the text that a copy holds of it: none where the copy
/// lacks the file or holds it as it is.
pub open spec fn patch_for(files: Seq<FileView>, upstream: FileView) -> Option<Seq<char>> {
    if differs(files, upstream) {
        Some(
            patch_between(
                upstream.text,
                text_of(files, upstream.name)->Some_0,
                upstream.name,
            ),
        )
    } else {
        None
    }
}

/// Whether patch files are those that the upstream files need for a copy.
pub open spec fn patches_for(
    ps: Seq<PatchFileView>,
    cache: Seq<FileView>,
    files: Seq<FileView>,
) -> bool {
    &&& ps.len() == cache.len()
    &&& forall|i: int|
        0 <= i < cache.len() ==> (#[trigger] ps[i]).filename == cache[i].name && ps[i].patch
            == patch_for(files, cache[i])
}

proof fn lemma_patches_for(cache: Seq<FileView>, files: Seq<FileView>)
    requires
        distinct_names(cache),
    ensures
        patches_for(dir_patches(cache, changed_files(cache, files)), cache, files),
        is_edited(cache, files) ==> pinned_names(
            dir_patches(cache, changed_files(cache, files)),
        ).len() > 0,
{
    let changed = changed_files(cache, files);
    let ps = dir_patches(cache, changed);
    lemma_dir_patches(cache, changed);
    assert forall|i: int| 0 <= i < cache.len() implies (#[trigger] ps[i]).filename == cache[i].name
        && ps[i].patch == patch_for(files, cache[i]) by {
        lemma_changed_text(cache, files, i);
        law_file_by_name(files, cache[i].name);
        if differs(files, cache[i]) {
            let k = choose|k: int| #[trigger]
                first_named(files, cache[i].name, k) && files[k].text != cache[i].text;
            assert(text_of(files, cache[i].name) == Some(files[k].text));
        }
    }
    if is_edited(cache, files) {
        let i = choose|i: int| 0 <= i < cache.len() && differs(files, #[trigger] cache[i]);
        assert(ps[i].patch is Some);
        lemma_pinned_names(ps, i);
    }
}

/// Pinning a directory entry says that there is nothing to pin exactly where no copy is edited, and
/// fails exactly where two edited copies changed different files or changed them in different ways.
/// Else each upstream file that the edited copies hold in another text gets the patch to that text,
/// and each other file gets none.
pub proof fn law_pin_keeps_dir_edits(
    name: Seq<char>,
    cache: Seq<FileView>,
    vs: Seq<DirView>,
    dry_run: bool,
)
    requires
        distinct_names(cache),
    ensures
        pinned_dir(name, cache, vs, dry_run) is Err <==> exists|
            i: int,
            j: int,
            a: Seq<FileView>,
            b: Seq<FileView>,
        | #[trigger] edited_as(cache, vs, i, a) && #[trigger] edited_as(cache, vs, j, b) && a != b,
        pinned_dir(name, cache, vs, dry_run) matches Ok(p) ==> {
            &&& p.patch is None
            &&& p.status == nothing_to_pin(name) <==> forall|i: int|
                0 <= i < vs.len() ==> !is_edited(cache, (#[trigger] vs[i]).files)
            &&& !dry_run ==> forall|q: int|
                0 <= q < vs.len() && is_edited(cache, (#[trigger] vs[q]).files) ==> patches_for(
                    p.files,
                    cache,
                    vs[q].files,
                )
        },
{
    let m = modified_dirs(cache, vs);
    lemma_statuses_differ(name);
    if m.len() > 0 {
        let a = lemma_there_is_edited(cache, vs, 0);
        assert(is_edited(cache, vs[a].files));
        if forall|i: int| 0 <= i < m.len() ==> (#[trigger] m[i]).files == m[0].files {
            assert forall|q: int| 0 <= q < vs.len() && is_edited(cache, (
            #[trigger] vs[q]).files) implies changed_files(cache, vs[q].files) == m[0].files
                && patches_for(dir_patches(cache, m[0].files), cache, vs[q].files) by {
                lemma_edited_is_there(cache, vs, q);
                let j = choose|j: int|
                    0 <= j < m.len() && (#[trigger] m[j]).files == changed_files(
                        cache,
                        vs[q].files,
                    );
                assert(m[j].files == m[0].files);
                lemma_patches_for(cache, vs[q].files);
            }
            lemma_patches_for(cache, vs[a].files);
            let ok = pinned_dir(name, cache, vs, dry_run)->Ok_0;
            assert(ok.status != nothing_to_pin(name)) by {
                reveal_strlit("'");
                reveal_strlit("Pinned '");
                reveal_strlit("Would pin '");
                assert(nothing_to_pin(name)[0] == '\'');
                assert(ok.status[0] == 'P' || ok.status[0] == 'W');
            }
            assert forall|
                i: int,
                j: int,
                x: Seq<FileView>,
                y: Seq<FileView>,
            | #[trigger] edited_as(cache, vs, i, x) && #[trigger] edited_as(
                cache,
                vs,
                j,
                y,
            ) implies x == y by {
                assert(is_edited(cache, vs[i].files));
                assert(is_edited(cache, vs[j].files));
            }
        } else {
            let k = choose|k: int| 0 <= k < m.len() && (#[trigger] m[k]).files != m[0].files;
            let b = lemma_there_is_edited(cache, vs, k);
            assert(edited_as(cache, vs, a, m[0].files) && edited_as(cache, vs, b, m[k].files));
        }
    } else {
        assert forall|i: int| 0 <= i < vs.len() implies !is_edited(
            cache,
            (#[trigger] vs[i]).files,
        ) by {
            if is_edited(cache, vs[i].files) {
                lemma_edited_is_there(cache, vs, i);
            }
        }
        assert forall|i: int, x: Seq<FileView>| !(#[trigger] edited_as(cache, vs, i, x)) by {
            if edited_as(cache, vs, i, x) {
                assert(is_edited(cache, vs[i].files));
            }
        }
    }
}

/// A file with a patch is named.
proof fn lemma_pinned_names(ps: Seq<PatchFileView>, i: int)
    requires
        0 <= i < ps.len(),
        ps[i].patch is Some,
    ensures
        pinned_names(ps).contains(ps[i].filename),
        pinned_names(ps).len() > 0,
    decreases ps.len(),
{
    let all = pinned_names(ps);
    if i < ps.len() - 1 {
        let init = ps.drop_last();
        lemma_pinned_names(init, i);
        let before = pinned_names(init);
        let k = choose|k: int| 0 <= k < before.len() && before[k] == ps[i].filename;
        assert(all[k] == ps[i].filename);
    } else {
        assert(all[all.len() - 1] == ps[i].filename);
    }
}

/// Local entries are never pinned. Any other entry has to be locked, cached and installed, and is
/// then pinned by what its copies hold; without one of these it is refused.
pub proof fn law_what_can_be_pinned(e: EntryView, locked: bool, s: PinSource, dry_run: bool)
    ensures
        e.source is Local ==> (pinned(e, locked, s, dry_run) matches Ok(p) && p.patch is None
            && p.files.len() == 0),
        !(e.source is Local) && !locked ==> pinned(e, locked, s, dry_run) is Err,
        !(e.source is Local) && locked ==> match s {
            PinSource::Single { cached, installed } => if cached is None || installed@.len() == 0 {
                pinned(e, locked, s, dry_run) is Err
            } else {
                pinned(e, locked, s, dry_run) == pinned_single(
                    e.name,
                    cached->Some_0@,
                    single_views(installed@),
                    dry_run,
                )
            },
            PinSource::Dir { cached_files, installed_dirs } => if cached_files is None
                || installed_dirs@.len() == 0 {
                pinned(e, locked, s, dry_run) is Err
            } else {
                pinned(e, locked, s, dry_run) == pinned_dir(
                    e.name,
                    file_views(cached_files->Some_0@),
                    dir_views(installed_dirs@),
                    dry_run,
                )
            },
        },
{
}

/// An installed entry is shown as modified exactly where it is no local entry, holds no pin, is
/// cached and installed, and a text that is installed differs from the upstream one.
pub proof fn law_modified_is_an_unpinned_edit(e: EntryView, s: LocalState)
    ensures
        locally_modified(e, s) <==> !(e.source is Local) && match s {
            LocalState::Single { installed, cached, pinned } => !pinned && installed is Some
                && cached is Some && installed->Some_0@ != cached->Some_0@,
            LocalState::Dir { files, cached_files, has_patches } => !has_patches && cached_files
                is Some && is_edited(file_views(cached_files->Some_0@), file_views(files@)),
        },
{
    if let LocalState::Dir { files, cached_files, has_patches } = s {
        if let Some(c) = cached_files {
            law_changed_files(file_views(c@), file_views(files@));
        }
    }
}

/// The diff that is shown of one upstream file: that to the first installed file of its name, and
/// nothing where there is none.
pub open spec fn file_diff(
    name: Seq<char>,
    sha: Seq<char>,
    installed: Seq<FileView>,
    upstream: FileView,
) -> Seq<char> {
    if exists|k: int| #[trigger] first_named(installed, upstream.name, k) {
        let k = choose|k: int| #[trigger] first_named(installed, upstream.name, k);
        local_diff(name + "/"@ + upstream.name, sha, upstream.text, installed[k].text)
    } else {
        Seq::empty()
    }
}

/// What is shown of a directory entry is one diff after the other, of each upstream file in order
/// that is installed; and the entry is called clean exactly where all of these are empty.
pub proof fn law_each_file_is_shown(
    name: Seq<char>,
    sha: Seq<char>,
    cached: Seq<FileView>,
    installed: Seq<FileView>,
)
    ensures
        local_dir_diffs(name, sha, cached, installed) == concat(
            cached.map_values(|c: FileView| file_diff(name, sha, installed, c)),
        ),
        local_dir_output(name, sha, Some(cached), Some(installed)) matches Ok(t) && (t
            == local_dir_diffs(name, sha, cached, installed) || local_dir_diffs(
            name,
            sha,
            cached,
            installed,
        ).len() == 0),
        local_dir_output(name, sha, None, Some(installed)) is Err,
        local_dir_output(name, sha, Some(cached), None) is Err,
    decreases cached.len(),
{
    let g = |c: FileView| file_diff(name, sha, installed, c);
    let all = cached.map_values(g);
    if cached.len() > 0 {
        let init = cached.drop_last();
        law_each_file_is_shown(name, sha, init, installed);
        law_file_by_name(installed, cached.last().name);
        assert(all.drop_last() =~= init.map_values(g));
        assert(all.last() == g(cached.last()));
        let c = cached.last();
        if exists|k: int| #[trigger] first_named(installed, c.name, k) {
            let k = choose|k: int| #[trigger] first_named(installed, c.name, k);
            assert(text_of(installed, c.name) == Some(installed[k].text));
        } else {
            assert(g(c) =~= Seq::empty());
            assert(concat(all) =~= concat(all.drop_last()));
        }
    }
}

// ---------------------------------------------------------------------------
// Merged directories
// ---------------------------------------------------------------------------

/// The test whether a merged file differs from the new upstream one; one that upstream lacks counts
/// as empty.
pub open spec fn differing_from(theirs: Seq<FileView>) -> spec_fn(FileView) -> bool {
    |f: FileView| f.text != text_or_empty(theirs, f.name)
}

/// After a merge each file that differs from the new upstream one is kept as a patch from upstream
/// to the merged text, and no other file is.
pub proof fn law_merged_edits_are_kept(merged: Seq<FileView>, theirs: Seq<FileView>)
    ensures
        merged_patches(merged, theirs) == merged.filter(differing_from(theirs)).map_values(
            |f: FileView|
                FileView {
                    name: f.name,
                    text: patch_between(text_or_empty(theirs, f.name), f.text, f.name),
                },
        ),
        merged_patches(merged, theirs).len() == 0 <==> forall|i: int|
            0 <= i < merged.len() ==> (#[trigger] merged[i]).text == text_or_empty(
                theirs,
                merged[i].name,
            ),
        forall|name: Seq<char>| #[trigger]
            text_or_empty(theirs, name) == (match text_of(theirs, name) {
                Some(t) => t,
                None => Seq::empty(),
            }),
    decreases merged.len(),
{
    reveal(Seq::filter);
    let p = differing_from(theirs);
    let g = |f: FileView|
        FileView {
            name: f.name,
            text: patch_between(text_or_empty(theirs, f.name), f.text, f.name),
        };
    let all = merged_patches(merged, theirs);
    if merged.len() == 0 {
        assert(all =~= merged.filter(p).map_values(g));
    } else {
        let init = merged.drop_last();
        let l = merged.last();
        law_merged_edits_are_kept(init, theirs);
        let f = init.filter(p);
        if p(l) {
            assert(f.push(l).map_values(g) =~= f.map_values(g).push(g(l)));
        }
        assert(all =~= merged.filter(p).map_values(g));
        assert(l == merged[merged.len() - 1]);
        if all.len() == 0 {
            assert forall|i: int| 0 <= i < merged.len() implies (#[trigger] merged[i]).text
                == text_or_empty(theirs, merged[i].name) by {
                if i < init.len() {
                    assert(init[i] == merged[i]);
                }
            }
        } else if !p(l) {
            let i = choose|i: int|
                0 <= i < init.len() && (#[trigger] init[i]).text != text_or_empty(
                    theirs,
                    init[i].name,
                );
            assert(merged[i] == init[i]);
        }
    }
}

} // verus!
