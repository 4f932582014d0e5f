//! Keeping local edits as patches.

use vstd::prelude::*;
use vstd::string::StringExecFns;
use crate::commands::common::{push_text, sentence};
use crate::commands::files::{file_views, find_text, text_of, FileText, FileView};
use crate::commands::installed_variants::{
    dir_views, single_views, DirVariant, DirView, SingleFileVariant, SingleView,
};
use crate::commands::multi_target::{
    divergent_targets_message, divergent_text, modified_dir_variants, modified_dirs,
    modified_single_file_variants, modified_singles,
};
use crate::error::SkillfileError;
use crate::models::{Entry, EntryView, SourceFields};
use crate::text::{join, join_all, same, starts, starts_with, texts};
use crate::unified::{generate_patch, patch_between, restores};

verus! {

// ---------------------------------------------------------------------------
// What pinning does
// ---------------------------------------------------------------------------

/// A patch file of one file of a directory entry: its text, or `None` where it is to go.
pub struct PatchFile {
    pub filename: String,
    pub patch: Option<String>,
}

/// A patch file as a value of texts.
pub struct PatchFileView {
    pub filename: Seq<char>,
    pub patch: Option<Seq<char>>,
}

impl View for PatchFile {
    type V = PatchFileView;

    open spec fn view(&self) -> PatchFileView {
        PatchFileView {
            filename: self.filename@,
            patch: match self.patch {
                Some(p) => Some(p@),
                None => None,
            },
        }
    }
}

/// The contents of a list of patch files.
pub open spec fn patch_file_views(v: Seq<PatchFile>) -> Seq<PatchFileView> {
    v.map_values(|p: PatchFile| p@)
}

/// What pinning an entry does: what to tell the user, the patch of a one-file entry to keep, and
/// the patch files of a directory entry to keep or to remove.
pub struct PinPlan {
    pub status: String,
    pub patch: Option<String>,
    pub files: Vec<PatchFile>,
}

/// What pinning an entry does, as a value of texts.
pub struct PinView {
    pub status: Seq<char>,
    pub patch: Option<Seq<char>>,
    pub files: Seq<PatchFileView>,
}

impl View for PinPlan {
    type V = PinView;

    open spec fn view(&self) -> PinView {
        PinView {
            status: self.status@,
            patch: match self.patch {
                Some(p) => Some(p@),
                None => None,
            },
            files: patch_file_views(self.files@),
        }
    }
}

/// Pinning that keeps nothing.
pub open spec fn only_says(status: Seq<char>) -> PinView {
    PinView { status, patch: None, files: Seq::empty() }
}

/// What is said of an entry: its name in quotes, and more.
pub open spec fn about(name: Seq<char>, more: Seq<char>) -> Seq<char> {
    "'"@ + name + more
}

/// What is said where there is nothing to pin.
pub open spec fn nothing_to_pin(name: Seq<char>) -> Seq<char> {
    about(name, "' matches upstream \u{2014} nothing to pin"@)
}

/// The words before the name of a pinned entry.
pub open spec fn pin_prefix(dry_run: bool) -> Seq<char> {
    if dry_run {
        "Would pin '"@
    } else {
        "Pinned '"@
    }
}

fn says(status: String) -> (r: PinPlan)
    ensures
        r@ == only_says(status@),
        r.patch is None,
        r.files@.len() == 0,
{
    let r = PinPlan { status, patch: None, files: Vec::new() };
    assert(patch_file_views(r.files@) =~= Seq::empty());
    r
}

fn prefix_of(dry_run: bool) -> (r: &'static str)
    ensures
        r@ == pin_prefix(dry_run),
{
    if dry_run {
        "Would pin '"
    } else {
        "Pinned '"
    }
}

// ---------------------------------------------------------------------------
// One-file entries
// ---------------------------------------------------------------------------

/// Whether all copies hold the same text.
pub open spec fn all_same(vs: Seq<SingleView>) -> bool {
    forall|i: int| 0 <= i < vs.len() ==> (#[trigger] vs[i]).content == vs[0].content
}

/// The labels of copies.
pub open spec fn single_labels(vs: Seq<SingleView>) -> Seq<Seq<char>> {
    vs.map_values(|v: SingleView| v.label)
}

/// What pinning a one-file entry does, or why it cannot be done: edits that are the same at all
/// edited targets become a patch.
pub open spec fn pinned_single(
    name: Seq<char>,
    cache: Seq<char>,
    installed: Seq<SingleView>,
    dry_run: bool,
) -> Result<PinView, Seq<char>> {
    let m = modified_singles(cache, installed);
    if m.len() == 0 {
        Ok(only_says(nothing_to_pin(name)))
    } else if !all_same(m) {
        Err(divergent_text(name, single_labels(m)))
    } else {
        Ok(
            PinView {
                status: pin_prefix(dry_run) + name + "'"@,
                patch: if dry_run {
                    None
                } else {
                    Some(patch_between(cache, m[0].content, name + ".md"@))
                },
                files: Seq::empty(),
            },
        )
    }
}

fn labels_of(vs: &Vec<SingleFileVariant>) -> (r: Vec<String>)
    ensures
        texts(r@) == single_labels(single_views(vs@)),
{
    let ghost want = single_labels(single_views(vs@));
    let mut out: Vec<String> = Vec::new();
    let mut i: usize = 0;
    while i < vs.len()
        invariant
            want == single_labels(single_views(vs@)),
            i <= vs@.len(),
            texts(out@) == want.take(i as int),
        decreases vs@.len() - i,
    {
        assert(want[i as int] == single_views(vs@)[i as int].label);
        assert(want.take(i + 1) =~= want.take(i as int).push(vs@[i as int].label@));
        push_text(&mut out, &vs[i].label);
        i += 1;
    }
    assert(want.take(i as int) =~= want);
    out
}

/// Works out what pinning a one-file entry does.
pub fn pin_single_file_content(
    name: &str,
    cache_text: &str,
    installed: &Vec<SingleFileVariant>,
    dry_run: bool,
) -> (r: Result<PinPlan, SkillfileError>)
    ensures
        match pinned_single(name@, cache_text@, single_views(installed@), dry_run) {
            Ok(p) => r matches Ok(x) && x@ == p,
            Err(e) => r matches Err(SkillfileError::Manifest(m)) && m@ == e,
        },
        r matches Ok(x) ==> (x.patch matches Some(p) ==> restores(
            cache_text@,
            modified_singles(cache_text@, single_views(installed@))[0].content,
            name@ + ".md"@,
            p@,
        )),
{
    let modified = modified_single_file_variants(cache_text, installed);
    let ghost m = single_views(modified@);
    assert(m.len() == modified@.len());
    if modified.len() == 0 {
        return Ok(says(sentence("'", name, "' matches upstream \u{2014} nothing to pin")));
    }
    let mut i: usize = 0;
    while i < modified.len()
        invariant
            m == single_views(modified@),
            modified@.len() > 0,
            i <= modified@.len(),
            forall|j: int| 0 <= j < i ==> (#[trigger] m[j]).content == m[0].content,
            m == modified_singles(cache_text@, single_views(installed@)),
        decreases modified@.len() - i,
    {
        assert(m[i as int] == modified@[i as int]@);
        assert(m[0] == modified@[0]@);
        if !same(&modified[i].content, &modified[0].content) {
            return Err(divergent_targets_message(name, &labels_of(&modified)));
        }
        i += 1;
    }
    assert(m[0] == modified@[0]@);
    let mut label: String = String::from_str(name);
    label.append(".md");
    let status = sentence(prefix_of(dry_run), name, "'");
    let r = if dry_run {
        PinPlan { status, patch: None, files: Vec::new() }
    } else {
        PinPlan {
            status,
            patch: Some(generate_patch(cache_text, &modified[0].content, &label)),
            files: Vec::new(),
        }
    };
    assert(patch_file_views(r.files@) =~= Seq::empty());
    Ok(r)
}

// ---------------------------------------------------------------------------
// Directory entries
// ---------------------------------------------------------------------------

/// Whether all copies of a directory changed the same files in the same way.
pub open spec fn dirs_same(vs: Seq<DirView>) -> bool {
    forall|i: int| 0 <= i < vs.len() ==> (#[trigger] vs[i]).files == vs[0].files
}

/// The labels of copies of a directory.
pub open spec fn dir_labels(vs: Seq<DirView>) -> Seq<Seq<char>> {
    vs.map_values(|v: DirView| v.label)
}

/// The patch files for the upstream files of a directory entry, given the changed ones: a patch
/// for each that changed, and none for the others.
pub open spec fn dir_patches(cache: Seq<FileView>, changed: Seq<FileView>) -> Seq<PatchFileView>
    decreases cache.len(),
{
    if cache.len() == 0 {
        Seq::empty()
    } else {
        let c = cache.last();
        dir_patches(cache.drop_last(), changed).push(
            PatchFileView {
                filename: c.name,
                patch: match text_of(changed, c.name) {
                    Some(t) => if t == c.text {
                        None
                    } else {
                        Some(patch_between(c.text, t, c.name))
                    },
                    None => None,
                },
            },
        )
    }
}

/// The names of the files that have a patch.
pub open spec fn pinned_names(ps: Seq<PatchFileView>) -> Seq<Seq<char>>
    decreases ps.len(),
{
    if ps.len() == 0 {
        Seq::empty()
    } else {
        match ps.last().patch {
            Some(_) => pinned_names(ps.drop_last()).push(ps.last().filename),
            None => pinned_names(ps.drop_last()),
        }
    }
}

/// What pinning a directory entry does, or why it cannot be done.
pub open spec fn pinned_dir(
    name: Seq<char>,
    cache: Seq<FileView>,
    installed: Seq<DirView>,
    dry_run: bool,
) -> Result<PinView, Seq<char>> {
    let m = modified_dirs(cache, installed);
    if m.len() == 0 {
        Ok(only_says(nothing_to_pin(name)))
    } else if !dirs_same(m) {
        Err(divergent_text(name, dir_labels(m)))
    } else {
        let ps = dir_patches(cache, m[0].files);
        let pinned = pinned_names(ps);
        Ok(
            PinView {
                status: if pinned.len() == 0 {
                    nothing_to_pin(name)
                } else {
                    pin_prefix(dry_run) + name + "' ("@ + join(pinned, ", "@) + ")"@
                },
                patch: None,
                files: if dry_run {
                    Seq::empty()
                } else {
                    ps
                },
            },
        )
    }
}

fn dir_labels_of(vs: &Vec<DirVariant>) -> (r: Vec<String>)
    ensures
        texts(r@) == dir_labels(dir_views(vs@)),
{
    let ghost want = dir_labels(dir_views(vs@));
    let mut out: Vec<String> = Vec::new();
    let mut i: usize = 0;
    while i < vs.len()
        invariant
            want == dir_labels(dir_views(vs@)),
            i <= vs@.len(),
            texts(out@) == want.take(i as int),
        decreases vs@.len() - i,
    {
        assert(want[i as int] == dir_views(vs@)[i as int].label);
        assert(want.take(i + 1) =~= want.take(i as int).push(vs@[i as int].label@));
        push_text(&mut out, &vs[i].label);
        i += 1;
    }
    assert(want.take(i as int) =~= want);
    out
}

fn same_files(a: &Vec<FileText>, b: &Vec<FileText>) -> (r: bool)
    ensures
        r == (file_views(a@) == file_views(b@)),
{
    let ghost x = file_views(a@);
    let ghost y = file_views(b@);
    assert(x.len() == a@.len() && y.len() == b@.len());
    if a.len() != b.len() {
        return false;
    }
    let mut i: usize = 0;
    while i < a.len()
        invariant
            x == file_views(a@),
            y == file_views(b@),
            a@.len() == b@.len(),
            i <= a@.len(),
            forall|j: int| 0 <= j < i ==> x[j] == y[j],
        decreases a@.len() - i,
    {
        assert(x[i as int] == a@[i as int]@);
        assert(y[i as int] == b@[i as int]@);
        if !same(&a[i].name, &b[i].name) || !same(&a[i].text, &b[i].text) {
            return false;
        }
        i += 1;
    }
    assert(x =~= y);
    true
}

/// The changes that all edited copies of a directory share.
fn representative_dir_changes<'a>(entry_name: &str, modified: &'a Vec<DirVariant>) -> (r: Result<
    &'a Vec<FileText>,
    SkillfileError,
>)
    requires
        modified@.len() > 0,
    ensures
        if dirs_same(dir_views(modified@)) {
            r matches Ok(c) && file_views(c@) == modified@[0]@.files
        } else {
            r matches Err(SkillfileError::Manifest(m)) && m@ == divergent_text(
                entry_name@,
                dir_labels(dir_views(modified@)),
            )
        },
{
    let ghost m = dir_views(modified@);
    let mut i: usize = 0;
    while i < modified.len()
        invariant
            m == dir_views(modified@),
            modified@.len() > 0,
            i <= modified@.len(),
            forall|j: int| 0 <= j < i ==> (#[trigger] m[j]).files == m[0].files,
        decreases modified@.len() - i,
    {
        assert(m[i as int] == modified@[i as int]@);
        assert(m[0] == modified@[0]@);
        if !same_files(&modified[i].files, &modified[0].files) {
            return Err(divergent_targets_message(entry_name, &dir_labels_of(modified)));
        }
        i += 1;
    }
    Ok(&modified[0].files)
}

/// The patch of one file, or `None` where it needs none.
fn process_dir_file_text(filename: &str, original_text: &str, installed_text: &str) -> (r: Option<
    String,
>)
    ensures
        match r {
            Some(p) => original_text@ != installed_text@ && p@ == patch_between(
                original_text@,
                installed_text@,
                filename@,
            ) && restores(original_text@, installed_text@, filename@, p@),
            None => original_text@ == installed_text@,
        },
{
    let patch = generate_patch(original_text, installed_text, filename);
    if patch.as_str().is_empty() {
        None
    } else {
        Some(patch)
    }
}

/// Whether each patch restores the changed text of its file.
pub open spec fn dir_restores(
    cache: Seq<FileView>,
    changed: Seq<FileView>,
    ps: Seq<PatchFile>,
) -> bool {
    forall|i: int|
        0 <= i < ps.len() && (#[trigger] ps[i]).patch is Some ==> (text_of(
            changed,
            cache[i].name,
        ) matches Some(t) && restores(cache[i].text, t, cache[i].name, ps[i].patch->Some_0@))
}

/// The patch files for the changes of a directory entry.
fn apply_dir_pin_changes(cache: &Vec<FileText>, changed: &Vec<FileText>) -> (r: Vec<PatchFile>)
    ensures
        patch_file_views(r@) == dir_patches(file_views(cache@), file_views(changed@)),
        dir_restores(file_views(cache@), file_views(changed@), r@),
{
    let ghost cs = file_views(cache@);
    let ghost ch = file_views(changed@);
    let mut out: Vec<PatchFile> = Vec::new();
    let mut i: usize = 0;
    assert(patch_file_views(out@) =~= dir_patches(cs.take(0), ch));
    while i < cache.len()
        invariant
            cs == file_views(cache@),
            ch == file_views(changed@),
            i <= cache@.len(),
            patch_file_views(out@) == dir_patches(cs.take(i as int), ch),
            out@.len() == i,
            dir_restores(cs, ch, out@),
        decreases cache@.len() - i,
    {
        assert(cs.take(i + 1).drop_last() =~= cs.take(i as int));
        assert(cs.take(i + 1).last() == cache@[i as int]@);
        let c = &cache[i];
        let patch = match find_text(changed, &c.name) {
            Some(t) => process_dir_file_text(&c.name, &c.text, t),
            None => None,
        };
        let ghost before = patch_file_views(out@);
        let p = PatchFile { filename: c.name.clone(), patch };
        let ghost pv = p@;
        out.push(p);
        assert(patch_file_views(out@) =~= before.push(pv));
        i += 1;
    }
    assert(cs.take(i as int) =~= cs);
    out
}

fn names_with_patch(ps: &Vec<PatchFile>) -> (r: Vec<String>)
    ensures
        texts(r@) == pinned_names(patch_file_views(ps@)),
{
    let ghost v = patch_file_views(ps@);
    let mut out: Vec<String> = Vec::new();
    let mut i: usize = 0;
    assert(texts(out@) =~= pinned_names(v.take(0)));
    while i < ps.len()
        invariant
            v == patch_file_views(ps@),
            i <= ps@.len(),
            texts(out@) == pinned_names(v.take(i as int)),
        decreases ps@.len() - i,
    {
        assert(v.take(i + 1).drop_last() =~= v.take(i as int));
        assert(v.take(i + 1).last() == ps@[i as int]@);
        if ps[i].patch.is_some() {
            push_text(&mut out, &ps[i].filename);
        }
        i += 1;
    }
    assert(v.take(i as int) =~= v);
    out
}

/// Works out what pinning the edits of a directory entry does.
fn pin_dir_content(
    name: &str,
    cache: &Vec<FileText>,
    installed: &Vec<DirVariant>,
    dry_run: bool,
) -> (r: Result<PinPlan, SkillfileError>)
    ensures
        match pinned_dir(name@, file_views(cache@), dir_views(installed@), dry_run) {
            Ok(p) => r matches Ok(x) && x@ == p,
            Err(e) => r matches Err(SkillfileError::Manifest(m)) && m@ == e,
        },
        r matches Ok(x) ==> dir_restores(
            file_views(cache@),
            modified_dirs(file_views(cache@), dir_views(installed@))[0].files,
            x.files@,
        ),
{
    let modified = modified_dir_variants(cache, installed);
    let ghost m = dir_views(modified@);
    assert(m.len() == modified@.len());
    if modified.len() == 0 {
        return Ok(says(sentence("'", name, "' matches upstream \u{2014} nothing to pin")));
    }
    let changed = representative_dir_changes(name, &modified)?;
    assert(m[0] == modified@[0]@);
    let ps = apply_dir_pin_changes(cache, changed);
    let pinned = names_with_patch(&ps);
    assert(texts(pinned@).len() == pinned@.len());
    let status = if pinned.len() == 0 {
        sentence("'", name, "' matches upstream \u{2014} nothing to pin")
    } else {
        let mut s = sentence(prefix_of(dry_run), name, "' (");
        let list = join_all(&pinned, ", ");
        s.append(&list);
        s.append(")");
        s
    };
    if dry_run {
        let r = PinPlan { status, patch: None, files: Vec::new() };
        assert(patch_file_views(r.files@) =~= Seq::empty());
        Ok(r)
    } else {
        Ok(PinPlan { status, patch: None, files: ps })
    }
}

// ---------------------------------------------------------------------------
// The commands
// ---------------------------------------------------------------------------

/// What there is of an entry to pin: the upstream text, where it is cached, and the copies that are
/// installed.
pub enum PinSource {
    Single { cached: Option<String>, installed: Vec<SingleFileVariant> },
    Dir { cached_files: Option<Vec<FileText>>, installed_dirs: Vec<DirVariant> },
}

/// Why an entry cannot be pinned yet.
pub open spec fn not_ready(name: Seq<char>, what: Seq<char>) -> Seq<char> {
    about(name, "' is not "@ + what + " \u{2014} run `skillfile install` first"@)
}

/// What pinning a directory entry does, or why it cannot be done: it has to be cached and
/// installed.
pub open spec fn pinned_dir_entry(
    name: Seq<char>,
    cached: Option<Vec<FileText>>,
    installed: Seq<DirVariant>,
    dry_run: bool,
) -> Result<PinView, Seq<char>> {
    match cached {
        None => Err(not_ready(name, "cached"@)),
        Some(c) => if installed.len() == 0 {
            Err(not_ready(name, "installed"@))
        } else {
            pinned_dir(name, file_views(c@), dir_views(installed), dry_run)
        },
    }
}

/// What pinning an entry does, or why it cannot be done.
pub open spec fn pinned(e: EntryView, locked: bool, s: PinSource, dry_run: bool) -> Result<
    PinView,
    Seq<char>,
> {
    if e.source is Local {
        Ok(only_says(about(e.name, "' is a local entry \u{2014} skipped"@)))
    } else if !locked {
        Err(not_ready(e.name, "locked"@))
    } else {
        match s {
            PinSource::Single { cached, installed } => match cached {
                None => Err(not_ready(e.name, "cached"@)),
                Some(c) => if installed@.len() == 0 {
                    Err(not_ready(e.name, "installed"@))
                } else {
                    pinned_single(e.name, c@, single_views(installed@), dry_run)
                },
            },
            PinSource::Dir { cached_files, installed_dirs } => pinned_dir_entry(
                e.name,
                cached_files,
                installed_dirs@,
                dry_run,
            ),
        }
    }
}

/// The error about an entry that is not ready for a command.
pub fn not_ready_error(name: &str, what: &str) -> (r: SkillfileError)
    ensures
        r matches SkillfileError::Manifest(m) && m@ == not_ready(name@, what@),
{
    let mut m: String = String::from_str("'");
    m.append(name);
    let mut more: String = String::from_str("' is not ");
    more.append(what);
    more.append(" \u{2014} run `skillfile install` first");
    m.append(&more);
    SkillfileError::Manifest(m)
}

/// Whether what is kept of an entry restores its edits: each patch, applied to the cached text it
/// was made for, gives the edited text.
pub open spec fn pin_restores(name: Seq<char>, s: PinSource, plan: PinPlan) -> bool {
    match s {
        PinSource::Single { cached: Some(c), installed } => plan.patch matches Some(p) ==> restores(
            c@,
            modified_singles(c@, single_views(installed@))[0].content,
            name + ".md"@,
            p@,
        ),
        PinSource::Dir { cached_files: Some(c), installed_dirs } => dir_restores(
            file_views(c@),
            modified_dirs(file_views(c@), dir_views(installed_dirs@))[0].files,
            plan.files@,
        ),
        _ => true,
    }
}

/// Works out what pinning a directory entry does. The patches restore the edits.
pub fn pin_dir_entry(
    name: &str,
    cached: &Option<Vec<FileText>>,
    installed: &Vec<DirVariant>,
    dry_run: bool,
) -> (r: Result<PinPlan, SkillfileError>)
    ensures
        match pinned_dir_entry(name@, *cached, installed@, dry_run) {
            Ok(p) => r matches Ok(x) && x@ == p,
            Err(e) => r matches Err(SkillfileError::Manifest(m)) && m@ == e,
        },
        r matches Ok(x) ==> (cached matches Some(c) ==> dir_restores(
            file_views(c@),
            modified_dirs(file_views(c@), dir_views(installed@))[0].files,
            x.files@,
        )),
{
    match cached {
        None => Err(not_ready_error(name, "cached")),
        Some(c) => if installed.len() == 0 {
            Err(not_ready_error(name, "installed"))
        } else {
            pin_dir_content(name, c, installed, dry_run)
        },
    }
}

/// Works out what pinning an entry does. Local entries are skipped; an entry has to be locked,
/// cached and installed. The patches restore the edits.
pub fn pin_entry(entry: &Entry, locked: bool, source: &PinSource, dry_run: bool) -> (r: Result<
    PinPlan,
    SkillfileError,
>)
    ensures
        match pinned(entry@, locked, *source, dry_run) {
            Ok(p) => r matches Ok(x) && x@ == p,
            Err(e) => r matches Err(SkillfileError::Manifest(m)) && m@ == e,
        },
        r matches Ok(x) ==> pin_restores(entry@.name, *source, x),
{
    let name = entry.name.as_str();
    if let SourceFields::Local { .. } = &entry.source {
        return Ok(says(sentence("'", name, "' is a local entry \u{2014} skipped")));
    }
    if !locked {
        return Err(not_ready_error(name, "locked"));
    }
    match source {
        PinSource::Single { cached, installed } => match cached {
            None => Err(not_ready_error(name, "cached")),
            Some(c) => if installed.len() == 0 {
                Err(not_ready_error(name, "installed"))
            } else {
                pin_single_file_content(name, c, installed, dry_run)
            },
        },
        PinSource::Dir { cached_files, installed_dirs } => pin_dir_entry(
            name,
            cached_files,
            installed_dirs,
            dry_run,
        ),
    }
}

/// What is shown of the status of a pin.
pub open spec fn pin_report_text(status: Seq<char>) -> Seq<char> {
    if starts_with(status, "Pinned"@) {
        status + " \u{2014} customisations saved to .skillfile/patches/"@
    } else if starts_with(status, "Would pin"@) {
        status + " [dry-run]"@
    } else {
        status
    }
}

/// What is shown of the status of a pin.
pub fn cmd_pin(status: &str) -> (r: String)
    ensures
        r@ == pin_report_text(status@),
{
    let mut s: String = status.to_owned();
    if starts(status, "Pinned") {
        s.append(" \u{2014} customisations saved to .skillfile/patches/");
    } else if starts(status, "Would pin") {
        s.append(" [dry-run]");
    }
    s
}

/// What unpinning an entry does.
pub struct UnpinPlan {
    pub remove_patch: bool,
    pub remove_dir_patches: bool,
    pub reinstall: bool,
    pub message: String,
}

/// Works out what unpinning an entry does, given which patches there are.
pub fn cmd_unpin(name: &str, has_patch: bool, has_dir_patch: bool) -> (r: UnpinPlan)
    ensures
        r.remove_patch == has_patch,
        r.remove_dir_patches == has_dir_patch,
        r.reinstall == (has_patch || has_dir_patch),
        r.message@ == (if has_patch || has_dir_patch {
            "Unpinned '"@ + name@ + "' \u{2014} restored to upstream version"@
        } else {
            about(name@, "' is not pinned"@)
        }),
{
    if !has_patch && !has_dir_patch {
        return UnpinPlan {
            remove_patch: false,
            remove_dir_patches: false,
            reinstall: false,
            message: sentence("'", name, "' is not pinned"),
        };
    }
    UnpinPlan {
        remove_patch: has_patch,
        remove_dir_patches: has_dir_patch,
        reinstall: true,
        message: sentence("Unpinned '", name, "' \u{2014} restored to upstream version"),
    }
}

/// A dry run says what would be pinned and keeps nothing.
pub proof fn law_dry_run_keeps_nothing(e: EntryView, locked: bool, s: PinSource)
    ensures
        pinned(e, locked, s, true) matches Ok(p) ==> p.patch is None && p.files.len() == 0,
        pinned(e, locked, s, true) is Err <==> pinned(e, locked, s, false) is Err,
{
}

} // verus!
