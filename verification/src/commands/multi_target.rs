//! Comparing the installed copies of an entry with its upstream text.

use vstd::prelude::*;
use vstd::string::StringExecFns;
use crate::commands::common::sentence;
use crate::commands::files::{file_views, find_text, push_file, text_of, FileText, FileView};
use crate::commands::installed_variants::{
    dir_views, single_views, DirVariant, DirView, SingleFileVariant, SingleView,
};
use crate::error::SkillfileError;
use crate::text::{join, join_all, same, texts};
use crate::unified::{is_unified_diff, show_diff, unified_diff_text};

verus! {

/// What is said where the copies of an entry were edited in different ways.
pub open spec fn divergent_text(entry_name: Seq<char>, labels: Seq<Seq<char>>) -> Seq<char> {
    "'"@ + entry_name + "' has divergent edits across install targets: "@ + join(labels, ", "@)
        + " \u{2014} reconcile them before pinning"@
}

/// The error where the copies of an entry were edited in different ways.
pub fn divergent_targets_message(entry_name: &str, labels: &Vec<String>) -> (r: SkillfileError)
    ensures
        r matches SkillfileError::Manifest(m) && m@ == divergent_text(entry_name@, texts(labels@)),
{
    let mut m = sentence("'", entry_name, "' has divergent edits across install targets: ");
    let list = join_all(labels, ", ");
    m.append(&list);
    m.append(" \u{2014} reconcile them before pinning");
    SkillfileError::Manifest(m)
}

/// The copies that differ from the upstream text.
pub open spec fn modified_singles(cache: Seq<char>, vs: Seq<SingleView>) -> Seq<SingleView>
    decreases vs.len(),
{
    if vs.len() == 0 {
        vs
    } else if vs.last().content != cache {
        modified_singles(cache, vs.drop_last()).push(vs.last())
    } else {
        modified_singles(cache, vs.drop_last())
    }
}

/// Picks the copies that differ from the upstream text.
pub fn modified_single_file_variants(cache_text: &str, variants: &Vec<SingleFileVariant>) -> (r: Vec<
    SingleFileVariant,
>)
    ensures
        single_views(r@) == modified_singles(cache_text@, single_views(variants@)),
{
    let ghost vs = single_views(variants@);
    let mut out: Vec<SingleFileVariant> = Vec::new();
    let mut i: usize = 0;
    assert(single_views(out@) =~= modified_singles(cache_text@, vs.take(0)));
    while i < variants.len()
        invariant
            vs == single_views(variants@),
            i <= variants@.len(),
            single_views(out@) == modified_singles(cache_text@, vs.take(i as int)),
        decreases variants@.len() - i,
    {
        assert(vs.take(i + 1).drop_last() =~= vs.take(i as int));
        assert(vs.take(i + 1).last() == variants@[i as int]@);
        if !same(&variants[i].content, cache_text) {
            let ghost before = single_views(out@);
            let v = SingleFileVariant {
                label: variants[i].label.clone(),
                content: variants[i].content.clone(),
            };
            let ghost vv = v@;
            out.push(v);
            assert(single_views(out@) =~= before.push(vv));
        }
        i += 1;
    }
    assert(vs.take(i as int) =~= vs);
    out
}

/// What a diff of a one-file entry compares.
pub struct SingleFileDiff<'a> {
    pub entry_name: &'a str,
    pub sha: &'a str,
    pub target_label: &'a str,
    pub upstream: &'a str,
    pub installed_text: &'a str,
}

/// The name of the upstream file of an entry in a diff.
pub open spec fn upstream_name(name: Seq<char>, sha: Seq<char>) -> Seq<char> {
    "a/"@ + name + ".md (upstream sha="@ + sha + ")"@
}

/// The name of the copy at a target in a diff.
pub open spec fn target_name(name: Seq<char>, label: Seq<char>) -> Seq<char> {
    "b/"@ + name + ".md (installed: "@ + label + ")"@
}

/// The diff from the upstream text of a one-file entry to the copy at a target.
pub fn format_single_file_diff(diff: &SingleFileDiff<'_>) -> (r: String)
    ensures
        r@ == unified_diff_text(
            diff.upstream@,
            diff.installed_text@,
            upstream_name(diff.entry_name@, diff.sha@),
            target_name(diff.entry_name@, diff.target_label@),
        ),
        is_unified_diff(
            r@,
            diff.upstream@,
            diff.installed_text@,
            upstream_name(diff.entry_name@, diff.sha@),
            target_name(diff.entry_name@, diff.target_label@),
        ),
        r@.len() == 0 <==> diff.upstream@ == diff.installed_text@,
{
    let mut a = sentence("a/", diff.entry_name, ".md (upstream sha=");
    a.append(diff.sha);
    a.append(")");
    let mut b = sentence("b/", diff.entry_name, ".md (installed: ");
    b.append(diff.target_label);
    b.append(")");
    show_diff(diff.upstream, diff.installed_text, &a, &b)
}

/// The upstream files that a copy of a directory holds in another text, with that text.
pub open spec fn changed_files(cache: Seq<FileView>, files: Seq<FileView>) -> Seq<FileView>
    decreases cache.len(),
{
    if cache.len() == 0 {
        Seq::empty()
    } else {
        let init = changed_files(cache.drop_last(), files);
        let c = cache.last();
        match text_of(files, c.name) {
            Some(t) => if t != c.text {
                init.push(FileView { name: c.name, text: t })
            } else {
                init
            },
            None => init,
        }
    }
}

/// Picks the files of a copy that differ from upstream.
pub fn modified_dir_content(cache: &Vec<FileText>, variant: &DirVariant) -> (r: Vec<FileText>)
    ensures
        file_views(r@) == changed_files(file_views(cache@), variant@.files),
{
    let ghost cs = file_views(cache@);
    let ghost fs = variant@.files;
    let mut out: Vec<FileText> = Vec::new();
    let mut i: usize = 0;
    assert(file_views(out@) =~= changed_files(cs.take(0), fs));
    while i < cache.len()
        invariant
            cs == file_views(cache@),
            fs == file_views(variant.files@),
            i <= cache@.len(),
            file_views(out@) == changed_files(cs.take(i as int), fs),
        decreases cache@.len() - i,
    {
        assert(cs.take(i + 1).drop_last() =~= cs.take(i as int));
        assert(cs.take(i + 1).last() == cache@[i as int]@);
        if let Some(t) = find_text(&variant.files, &cache[i].name) {
            if !same(t, &cache[i].text) {
                push_file(&mut out, &cache[i].name, t);
            }
        }
        i += 1;
    }
    assert(cs.take(i as int) =~= cs);
    out
}

/// The copies of a directory that differ from upstream, with the files in which they do.
pub open spec fn modified_dirs(cache: Seq<FileView>, vs: Seq<DirView>) -> Seq<DirView>
    decreases vs.len(),
{
    if vs.len() == 0 {
        Seq::empty()
    } else {
        let init = modified_dirs(cache, vs.drop_last());
        let changed = changed_files(cache, vs.last().files);
        if changed.len() > 0 {
            init.push(DirView { label: vs.last().label, files: changed })
        } else {
            init
        }
    }
}

/// Picks the copies of a directory that differ from upstream.
pub fn modified_dir_variants(cache: &Vec<FileText>, variants: &Vec<DirVariant>) -> (r: Vec<
    DirVariant,
>)
    ensures
        dir_views(r@) == modified_dirs(file_views(cache@), dir_views(variants@)),
{
    let ghost cs = file_views(cache@);
    let ghost vs = dir_views(variants@);
    let mut out: Vec<DirVariant> = Vec::new();
    let mut i: usize = 0;
    assert(dir_views(out@) =~= modified_dirs(cs, vs.take(0)));
    while i < variants.len()
        invariant
            cs == file_views(cache@),
            vs == dir_views(variants@),
            i <= variants@.len(),
            dir_views(out@) == modified_dirs(cs, vs.take(i as int)),
        decreases variants@.len() - i,
    {
        assert(vs.take(i + 1).drop_last() =~= vs.take(i as int));
        assert(vs.take(i + 1).last() == variants@[i as int]@);
        let changed = modified_dir_content(cache, &variants[i]);
        assert(file_views(changed@).len() == changed@.len());
        if changed.len() > 0 {
            let ghost before = dir_views(out@);
            let v = DirVariant { label: variants[i].label.clone(), files: changed };
            let ghost vv = v@;
            out.push(v);
            assert(dir_views(out@) =~= before.push(vv));
        }
        i += 1;
    }
    assert(vs.take(i as int) =~= vs);
    out
}

} // verus!
