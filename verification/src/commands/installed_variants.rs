//! The copies of an entry that are installed for its targets.

use vstd::prelude::*;
use crate::commands::files::{copy_files, file_views, FileText, FileView};
use crate::models::{EntityType, Entry, InstallTarget};
use crate::platforms::{platform_supports, supports, Platform};

verus! {

/// The copy of a one-file entry at an install target.
pub struct SingleFileVariant {
    pub label: String,
    pub content: String,
}

/// A copy as a value of texts.
pub struct SingleView {
    pub label: Seq<char>,
    pub content: Seq<char>,
}

impl View for SingleFileVariant {
    type V = SingleView;

    open spec fn view(&self) -> SingleView {
        SingleView { label: self.label@, content: self.content@ }
    }
}

/// The contents of a list of copies.
pub open spec fn single_views(v: Seq<SingleFileVariant>) -> Seq<SingleView> {
    v.map_values(|x: SingleFileVariant| x@)
}

/// The copy of a directory entry at an install target.
pub struct DirVariant {
    pub label: String,
    pub files: Vec<FileText>,
}

/// A copy of a directory as a value of texts.
pub struct DirView {
    pub label: Seq<char>,
    pub files: Seq<FileView>,
}

impl View for DirVariant {
    type V = DirView;

    open spec fn view(&self) -> DirView {
        DirView { label: self.label@, files: file_views(self.files@) }
    }
}

/// The contents of a list of copies of a directory.
pub open spec fn dir_views(v: Seq<DirVariant>) -> Seq<DirView> {
    v.map_values(|x: DirVariant| x@)
}

/// An install target and the file that was found there, where there is one.
pub struct FoundFile {
    pub target: InstallTarget,
    pub content: Option<String>,
}

/// An install target and the files that were found there, where any are meant to be there.
pub struct FoundDir {
    pub target: InstallTarget,
    pub files: Option<Vec<FileText>>,
}

/// The copy found at a target: none where the platform does not take such entities, or nothing is
/// installed.
pub open spec fn single_variant(ps: Seq<Platform>, t: EntityType, f: FoundFile) -> Option<SingleView> {
    match f.content {
        Some(c) => if platform_supports(ps, f.target.adapter@, t) {
            Some(SingleView { label: f.target@.label(), content: c@ })
        } else {
            None
        },
        None => None,
    }
}

/// The copies found at targets.
pub open spec fn single_variants(
    ps: Seq<Platform>,
    t: EntityType,
    fs: Seq<FoundFile>,
) -> Seq<SingleView>
    decreases fs.len(),
{
    if fs.len() == 0 {
        Seq::empty()
    } else {
        match single_variant(ps, t, fs.last()) {
            Some(v) => single_variants(ps, t, fs.drop_last()).push(v),
            None => single_variants(ps, t, fs.drop_last()),
        }
    }
}

/// The copy of a directory found at a target: none where the platform does not take such entities,
/// or nothing is meant to be installed.
pub open spec fn dir_variant(ps: Seq<Platform>, t: EntityType, f: FoundDir) -> Option<DirView> {
    match f.files {
        Some(v) => if platform_supports(ps, f.target.adapter@, t) {
            Some(DirView { label: f.target@.label(), files: file_views(v@) })
        } else {
            None
        },
        None => None,
    }
}

/// The copies of a directory found at targets.
pub open spec fn dir_variants(
    ps: Seq<Platform>,
    t: EntityType,
    fs: Seq<FoundDir>,
) -> Seq<DirView>
    decreases fs.len(),
{
    if fs.len() == 0 {
        Seq::empty()
    } else {
        match dir_variant(ps, t, fs.last()) {
            Some(v) => dir_variants(ps, t, fs.drop_last()).push(v),
            None => dir_variants(ps, t, fs.drop_last()),
        }
    }
}

/// Collects the copies of a one-file entry.
pub fn installed_single_file_variants(
    entry: &Entry,
    platforms: &Vec<Platform>,
    found: &Vec<FoundFile>,
) -> (r: Vec<SingleFileVariant>)
    ensures
        single_views(r@) == single_variants(platforms@, entry@.entity_type, found@),
{
    let ghost fs = found@;
    let ghost ps = platforms@;
    let ghost t = entry@.entity_type;
    let mut out: Vec<SingleFileVariant> = Vec::new();
    let mut i: usize = 0;
    assert(single_views(out@) =~= single_variants(ps, t, fs.take(0)));
    while i < found.len()
        invariant
            fs == found@,
            ps == platforms@,
            t == entry@.entity_type,
            i <= found@.len(),
            single_views(out@) == single_variants(ps, t, fs.take(i as int)),
        decreases found@.len() - i,
    {
        assert(fs.take(i + 1).drop_last() =~= fs.take(i as int));
        assert(fs.take(i + 1).last() == found@[i as int]);
        let f = &found[i];
        if let Some(c) = &f.content {
            if supports(platforms, &f.target.adapter, entry.entity_type) {
                let ghost before = single_views(out@);
                let v = SingleFileVariant { label: f.target.to_string(), content: c.clone() };
                let ghost vv = v@;
                out.push(v);
                assert(single_views(out@) =~= before.push(vv));
            }
        }
        i += 1;
    }
    assert(fs.take(i as int) =~= fs);
    out
}

/// Collects the copies of a directory entry.
pub fn installed_dir_variants(
    entry: &Entry,
    platforms: &Vec<Platform>,
    found: &Vec<FoundDir>,
) -> (r: Vec<DirVariant>)
    ensures
        dir_views(r@) == dir_variants(platforms@, entry@.entity_type, found@),
{
    let ghost fs = found@;
    let ghost ps = platforms@;
    let ghost t = entry@.entity_type;
    let mut out: Vec<DirVariant> = Vec::new();
    let mut i: usize = 0;
    assert(dir_views(out@) =~= dir_variants(ps, t, fs.take(0)));
    while i < found.len()
        invariant
            fs == found@,
            ps == platforms@,
            t == entry@.entity_type,
            i <= found@.len(),
            dir_views(out@) == dir_variants(ps, t, fs.take(i as int)),
        decreases found@.len() - i,
    {
        assert(fs.take(i + 1).drop_last() =~= fs.take(i as int));
        assert(fs.take(i + 1).last() == found@[i as int]);
        let f = &found[i];
        if let Some(files) = &f.files {
            if supports(platforms, &f.target.adapter, entry.entity_type) {
                let ghost before = dir_views(out@);
                let v = DirVariant { label: f.target.to_string(), files: copy_files(files) };
                let ghost vv = v@;
                out.push(v);
                assert(dir_views(out@) =~= before.push(vv));
            }
        }
        i += 1;
    }
    assert(fs.take(i as int) =~= fs);
    out
}

} // verus!
