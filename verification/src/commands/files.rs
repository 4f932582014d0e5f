//! Files as names and texts.

use vstd::prelude::*;
use crate::commands::common::push_text;
use crate::paths::{file_name, file_name_of};
use crate::sorted::{sort_set, sorted_set};
use crate::text::{same, texts};

verus! {

/// A file: its name, relative to a directory, and its text.
pub struct FileText {
    pub name: String,
    pub text: String,
}

/// A file as a value of texts.
pub struct FileView {
    pub name: Seq<char>,
    pub text: Seq<char>,
}

impl View for FileText {
    type V = FileView;

    open spec fn view(&self) -> FileView {
        FileView { name: self.name@, text: self.text@ }
    }
}

/// The contents of a list of files.
pub open spec fn file_views(v: Seq<FileText>) -> Seq<FileView> {
    v.map_values(|f: FileText| f@)
}

/// The text of the first file of a name.
pub open spec fn text_of(fs: Seq<FileView>, name: Seq<char>) -> Option<Seq<char>>
    decreases fs.len(),
{
    if fs.len() == 0 {
        None
    } else if fs[0].name == name {
        Some(fs[0].text)
    } else {
        text_of(fs.skip(1), name)
    }
}

/// The text of the first file of a name; empty where there is none.
pub open spec fn text_or_empty(fs: Seq<FileView>, name: Seq<char>) -> Seq<char> {
    match text_of(fs, name) {
        Some(t) => t,
        None => Seq::empty(),
    }
}

/// The names of files.
pub open spec fn names_of(fs: Seq<FileView>) -> Seq<Seq<char>> {
    fs.map_values(|f: FileView| f.name)
}

/// Finds the text of a file.
pub fn find_text<'a>(files: &'a Vec<FileText>, name: &str) -> (r: Option<&'a str>)
    ensures
        match text_of(file_views(files@), name@) {
            Some(t) => r matches Some(s) && s@ == t,
            None => r is None,
        },
{
    let ghost fs = file_views(files@);
    let mut i: usize = 0;
    assert(fs.skip(0) =~= fs);
    while i < files.len()
        invariant
            fs == file_views(files@),
            i <= files@.len(),
            text_of(fs, name@) == text_of(fs.skip(i as int), name@),
        decreases files@.len() - i,
    {
        assert(fs.skip(i as int)[0] == files@[i as int]@);
        assert(fs.skip(i as int).skip(1) =~= fs.skip(i + 1));
        if same(&files[i].name, name) {
            return Some(files[i].text.as_str());
        }
        i += 1;
    }
    None
}

/// Finds the text of a file; empty where there is none.
pub fn find_text_or_empty<'a>(files: &'a Vec<FileText>, name: &str) -> (r: &'a str)
    ensures
        r@ == text_or_empty(file_views(files@), name@),
{
    match find_text(files, name) {
        Some(t) => t,
        None => {
            proof {
                reveal_strlit("");
                assert(""@ =~= Seq::<char>::empty());
            }
            ""
        },
    }
}

/// Adds a file to a list.
pub fn push_file(out: &mut Vec<FileText>, name: &str, text: &str)
    ensures
        file_views(final(out)@) == file_views(old(out)@).push(
            (FileView { name: name@, text: text@ }),
        ),
{
    let ghost before = file_views(out@);
    let f = FileText { name: name.to_owned(), text: text.to_owned() };
    let ghost fv = f@;
    out.push(f);
    assert(file_views(out@) =~= before.push(fv));
}

/// A copy of a list of files.
pub fn copy_files(files: &Vec<FileText>) -> (r: Vec<FileText>)
    ensures
        file_views(r@) == file_views(files@),
{
    let ghost fs = file_views(files@);
    let mut out: Vec<FileText> = Vec::new();
    let mut i: usize = 0;
    while i < files.len()
        invariant
            fs == file_views(files@),
            i <= files@.len(),
            file_views(out@) == fs.take(i as int),
        decreases files@.len() - i,
    {
        push_file(&mut out, &files[i].name, &files[i].text);
        assert(fs.take(i + 1) =~= fs.take(i as int).push(files@[i as int]@));
        i += 1;
    }
    assert(fs.take(i as int) =~= fs);
    out
}

fn push_names(out: &mut Vec<String>, files: &Vec<FileText>)
    ensures
        texts(final(out)@) == texts(old(out)@) + names_of(file_views(files@)),
{
    let ghost before = texts(out@);
    let ghost ns = names_of(file_views(files@));
    let mut i: usize = 0;
    assert(before + ns.take(0) =~= before);
    while i < files.len()
        invariant
            ns == names_of(file_views(files@)),
            i <= files@.len(),
            texts(out@) == before + ns.take(i as int),
        decreases files@.len() - i,
    {
        assert(ns[i as int] == file_views(files@)[i as int].name);
        push_text(out, &files[i].name);
        assert(before + ns.take(i + 1) =~= (before + ns.take(i as int)).push(
            files@[i as int].name@,
        ));
        i += 1;
    }
    assert(ns.take(i as int) =~= ns);
}

/// The names of the files of two lists, ascending and each once.
pub fn all_names(a: &Vec<FileText>, b: &Vec<FileText>) -> (r: Vec<String>)
    ensures
        texts(r@) == sorted_set(names_of(file_views(a@)) + names_of(file_views(b@))),
{
    let mut names: Vec<String> = Vec::new();
    push_names(&mut names, a);
    push_names(&mut names, b);
    assert(texts(names@) =~= names_of(file_views(a@)) + names_of(file_views(b@)));
    sort_set(&names)
}

/// Whether a path in the cache is that of an upstream file, not of the tool's own notes.
pub open spec fn is_cache_file(path: Seq<char>) -> bool {
    file_name_of(path) matches Some(n) && n != ".meta"@
}

/// The upstream files among the paths in the cache.
pub open spec fn cache_files(paths: Seq<Seq<char>>) -> Seq<Seq<char>>
    decreases paths.len(),
{
    if paths.len() == 0 {
        paths
    } else if is_cache_file(paths.last()) {
        cache_files(paths.drop_last()).push(paths.last())
    } else {
        cache_files(paths.drop_last())
    }
}

/// Picks the upstream files out of the paths in the cache of an entry.
pub fn pick_cache_files(paths: &Vec<String>) -> (r: Vec<String>)
    ensures
        texts(r@) == cache_files(texts(paths@)),
{
    let ghost ps = texts(paths@);
    let mut out: Vec<String> = Vec::new();
    let mut i: usize = 0;
    assert(texts(out@) =~= cache_files(ps.take(0)));
    while i < paths.len()
        invariant
            ps == texts(paths@),
            i <= paths@.len(),
            texts(out@) == cache_files(ps.take(i as int)),
        decreases paths@.len() - i,
    {
        assert(ps.take(i + 1).drop_last() =~= ps.take(i as int));
        assert(ps.take(i + 1).last() == paths@[i as int]@);
        if let Some(n) = file_name(&paths[i]) {
            if !same(&n, ".meta") {
                push_text(&mut out, &paths[i]);
            }
        }
        i += 1;
    }
    assert(ps.take(i as int) =~= ps);
    out
}

/// The upstream files among the paths in the cache of an entry, ascending and each once.
pub fn load_cache_files(paths: &Vec<String>) -> (r: Vec<String>)
    ensures
        texts(r@) == sorted_set(cache_files(texts(paths@))),
{
    sort_set(&pick_cache_files(paths))
}

} // verus!
