//! Where files are kept, and how their paths are taken apart.

use vstd::prelude::*;
use crate::commands::add::first_segment;
use crate::commands::common::vendor_dir;
use crate::models::{EntityType, EntryView};
use crate::parser_laws::law_file_name;
use crate::patch_paths::{patch_name, type_patches};
use crate::path_order::{is_patch_file, parts_less};
use crate::paths::{join_paths, last_index, named_parts};
use crate::text::{lemma_until_char, lemma_until_char_is, starts_with, text_less};

verus! {

/// Whether a text can stand behind another in a path: it does not start at the root.
pub open spec fn is_relative(path: Seq<char>) -> bool {
    path.len() > 0 && path[0] != '/'
}

/// A relative path goes below another with one slash between them, whether or not the first ends in
/// one; an absolute path stays as it is.
pub proof fn law_joined_paths(base: Seq<char>, path: Seq<char>)
    ensures
        is_relative(path) && base.len() > 0 && base.last() != '/' ==> join_paths(base, path)
            == base.push('/') + path,
        is_relative(path) ==> join_paths(base.push('/'), path) == base.push('/') + path,
        path.len() > 0 && path[0] == '/' ==> join_paths(base, path) == path,
        is_relative(path) && base.len() == 0 ==> join_paths(base, path) == path,
{
    reveal_strlit("/");
    if is_relative(path) {
        if starts_with(path, "/"@) {
            assert(path.subrange(0, 1)[0] == '/');
        }
        assert(base + "/"@ + path =~= base.push('/') + path);
        if base.len() == 0 {
            assert(base + path =~= path);
        }
    } else if path.len() > 0 && path[0] == '/' {
        assert(path.subrange(0, 1) =~= "/"@);
    }
}

/// The directory of the entities of a type.
pub open spec fn type_dir(t: EntityType) -> Seq<char> {
    match t {
        EntityType::Skill => "skills"@,
        EntityType::Agent => "agents"@,
    }
}

/// The patches of entries are kept below `.skillfile/patches`, in a directory for each type, and the
/// cached upstream files below `.skillfile/cache`, in the same way. Both go by the name of the
/// entry.
pub proof fn law_places_of_an_entry(e: EntryView, root: Seq<char>, filename: Seq<char>)
    requires
        root.len() > 0,
        root.last() != '/',
        is_relative(e.name),
        is_relative(filename),
        e.name.last() != '/',
    ensures
        ({
            let patches = root + "/.skillfile/patches/"@ + type_dir(e.entity_type) + "/"@ + e.name;
            &&& join_paths(type_patches(e, root), patch_name(e.name)) == patches + ".patch"@
            &&& join_paths(type_patches(e, root), e.name) == patches
            &&& join_paths(join_paths(type_patches(e, root), e.name), patch_name(filename))
                == patches + "/"@ + filename + ".patch"@
            &&& vendor_dir(e, root) == root + "/.skillfile/cache/"@ + type_dir(e.entity_type)
                + "/"@ + e.name
        }),
{
    let dir = ".skillfile/patches"@;
    let cache = ".skillfile/cache"@;
    let t = type_dir(e.entity_type);
    reveal_strlit(".skillfile/patches");
    reveal_strlit(".skillfile/cache");
    reveal_strlit("/.skillfile/patches/");
    reveal_strlit("/.skillfile/cache/");
    reveal_strlit("skills");
    reveal_strlit("agents");
    reveal_strlit("/");
    law_joined_paths(root, dir);
    law_joined_paths(root, cache);
    let a = root.push('/') + dir;
    let b = root.push('/') + cache;
    law_joined_paths(a, t);
    law_joined_paths(b, t);
    let at = a.push('/') + t;
    let bt = b.push('/') + t;
    assert(type_patches(e, root) == at);
    law_joined_paths(at, patch_name(e.name));
    law_joined_paths(at, e.name);
    law_joined_paths(bt, e.name);
    let patches = root + "/.skillfile/patches/"@ + t + "/"@ + e.name;
    let own = at.push('/') + e.name;
    assert(own =~= patches);
    assert(at.push('/') + patch_name(e.name) =~= patches + ".patch"@);
    law_joined_paths(own, patch_name(filename));
    assert(own.push('/') + patch_name(filename) =~= patches + "/"@ + filename + ".patch"@);
    assert(bt.push('/') + e.name =~= root + "/.skillfile/cache/"@ + t + "/"@ + e.name);
}

proof fn lemma_last_dot(stem: Seq<char>, ext: Seq<char>)
    requires
        !ext.contains('.'),
    ensures
        last_index(stem.push('.') + ext, '.') == stem.len(),
    decreases ext.len(),
{
    let s = stem.push('.') + ext;
    if ext.len() > 0 {
        let init = ext.drop_last();
        assert(s.last() == ext.last());
        assert(ext.contains(ext[ext.len() - 1]));
        assert(s.drop_last() =~= stem.push('.') + init);
        assert forall|i: int| 0 <= i < init.len() implies init[i] != '.' by {
            assert(ext.contains(ext[i]));
        }
        lemma_last_dot(stem, init);
    } else {
        assert(s =~= stem.push('.'));
    }
}

/// A file is a patch exactly where the last ending of its name is `patch`; so each patch file of an
/// entry is found as one.
pub proof fn law_patch_files(dir: Seq<char>, stem: Seq<char>, ext: Seq<char>)
    requires
        stem.len() > 0,
        !stem.contains('/'),
        !ext.contains('/'),
        !ext.contains('.'),
        stem.push('.') + ext != ".."@,
    ensures
        is_patch_file(dir + "/"@ + (stem.push('.') + ext)) <==> ext == "patch"@,
        ext == "patch"@ ==> patch_name(stem) == stem.push('.') + ext,
{
    let name = stem.push('.') + ext;
    reveal_strlit(".");
    reveal_strlit("patch");
    reveal_strlit(".patch");
    assert forall|i: int| 0 <= i < name.len() implies name[i] != '/' by {
        if i < stem.len() {
            assert(stem.contains(stem[i]));
        } else if i > stem.len() {
            assert(ext.contains(ext[i - stem.len() - 1]));
        }
    }
    assert(name.len() >= 2 || ext.len() == 0);
    assert(name.len() >= 2);
    law_file_name(dir, name);
    lemma_last_dot(stem, ext);
    assert(name.skip(stem.len() as int + 1) =~= ext);
    if ext == "patch"@ {
        assert(patch_name(stem) =~= name);
    }
}

/// The parts of a path that name something are all its parts but empty ones and dots.
pub proof fn law_named_parts(parts: Seq<Seq<char>>)
    ensures
        named_parts(parts) == parts.filter(|p: Seq<char>| p.len() > 0 && p != "."@),
    decreases parts.len(),
{
    reveal(Seq::filter);
    if parts.len() > 0 {
        law_named_parts(parts.drop_last());
    }
}

/// Whether two lists of parts agree up to a position at which the first ends, or has the smaller
/// part.
pub open spec fn parts_less_at(a: Seq<Seq<char>>, b: Seq<Seq<char>>, k: int) -> bool {
    &&& 0 <= k <= a.len()
    &&& k < b.len()
    &&& a.take(k) == b.take(k)
    &&& k == a.len() || (a[k] != b[k] && text_less(a[k], b[k]))
}

/// Paths are ordered by their parts: the first part in which they differ decides, and a directory
/// comes before what is in it.
pub proof fn law_order_of_parts(a: Seq<Seq<char>>, b: Seq<Seq<char>>)
    ensures
        parts_less(a, b) <==> exists|k: int| parts_less_at(a, b, k),
    decreases a.len(),
{
    if a.len() > 0 && b.len() > 0 && a[0] == b[0] {
        let x = a.skip(1);
        let y = b.skip(1);
        law_order_of_parts(x, y);
        if parts_less(a, b) {
            let k = choose|k: int| parts_less_at(x, y, k);
            assert(a.take(k + 1) =~= seq![a[0]] + x.take(k));
            assert(b.take(k + 1) =~= seq![b[0]] + y.take(k));
            assert(parts_less_at(a, b, k + 1));
        }
        if exists|k: int| parts_less_at(a, b, k) {
            let k = choose|k: int| parts_less_at(a, b, k);
            assert(k > 0);
            assert(x.take(k - 1) =~= a.take(k).skip(1));
            assert(y.take(k - 1) =~= b.take(k).skip(1));
            assert(parts_less_at(x, y, k - 1));
        }
    } else if b.len() > 0 {
        if a.len() == 0 || text_less(a[0], b[0]) {
            assert(a.take(0) =~= b.take(0));
            assert(parts_less_at(a, b, 0));
        } else if exists|k: int| parts_less_at(a, b, k) {
            let k = choose|k: int| parts_less_at(a, b, k);
            if k > 0 {
                assert(a.take(k)[0] == b.take(k)[0]);
            }
        }
    }
}

/// The first part of a path is what stands before its first slash, or all of it.
pub proof fn law_first_segment(first: Seq<char>, rest: Seq<char>)
    requires
        !first.contains('/'),
    ensures
        first_segment(first.push('/') + rest) == first,
        first_segment(first) == first,
{
    let path = first.push('/') + rest;
    let n = first.len() as int;
    assert forall|j: int| 0 <= j < n implies path[j] != '/' && first[j] != '/' by {
        assert(first.contains(first[j]));
    }
    lemma_until_char_is(path, '/', n);
    assert(path.take(n) =~= first);
    lemma_until_char(first, '/');
}

} // verus!
