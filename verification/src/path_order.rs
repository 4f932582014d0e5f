//! The order of paths: part by part.

use vstd::prelude::*;
use crate::lines::{split_at_char, split_char};
use crate::paths::{extension, extension_of, file_name, file_name_of};
use crate::text::{lemma_text_less_order, less, same, text_less, texts};

verus! {

/// Whether one list of parts comes before another: at the first difference its part does.
pub open spec fn parts_less(a: Seq<Seq<char>>, b: Seq<Seq<char>>) -> bool
    decreases a.len(),
{
    if b.len() == 0 {
        false
    } else if a.len() == 0 {
        true
    } else if a[0] == b[0] {
        parts_less(a.skip(1), b.skip(1))
    } else {
        text_less(a[0], b[0])
    }
}

/// Whether one path comes before another.
pub open spec fn path_less(a: Seq<char>, b: Seq<char>) -> bool {
    parts_less(split_at_char(a, '/'), split_at_char(b, '/'))
}

proof fn lemma_parts_less_order(a: Seq<Seq<char>>, b: Seq<Seq<char>>, c: Seq<Seq<char>>)
    ensures
        parts_less(a, b) && parts_less(b, c) ==> parts_less(a, c),
        !(parts_less(a, b) && parts_less(b, a)),
        parts_less(a, b) && !parts_less(c, b) ==> parts_less(a, c),
    decreases a.len() + b.len() + c.len(),
{
    if a.len() > 0 && b.len() > 0 && c.len() > 0 {
        lemma_text_less_order(a[0], b[0], c[0]);
        lemma_text_less_order(b[0], c[0], a[0]);
        lemma_text_less_order(c[0], a[0], b[0]);
        lemma_text_less_order(a[0], c[0], b[0]);
        lemma_parts_less_order(a.skip(1), b.skip(1), c.skip(1));
    } else if a.len() > 0 && b.len() > 0 {
        lemma_text_less_order(a[0], b[0], a[0]);
        lemma_parts_less_order(a.skip(1), b.skip(1), c);
    }
}

/// Whether one path comes before another.
pub fn path_before(a: &str, b: &str) -> (r: bool)
    ensures
        r == path_less(a@, b@),
{
    let x = split_char(a, '/');
    let y = split_char(b, '/');
    let ghost xs = texts(x@);
    let ghost ys = texts(y@);
    let mut i: usize = 0;
    assert(xs.skip(0) =~= xs && ys.skip(0) =~= ys);
    while i < x.len() && i < y.len() && same(&x[i], &y[i])
        invariant
            xs == texts(x@),
            ys == texts(y@),
            i <= x@.len(),
            i <= y@.len(),
            parts_less(xs, ys) == parts_less(xs.skip(i as int), ys.skip(i as int)),
        decreases x@.len() - i,
    {
        assert(xs.skip(i as int)[0] == ys.skip(i as int)[0]);
        assert(xs.skip(i as int).skip(1) =~= xs.skip(i + 1));
        assert(ys.skip(i as int).skip(1) =~= ys.skip(i + 1));
        i += 1;
    }
    if i == y.len() {
        return false;
    }
    if i == x.len() {
        return true;
    }
    assert(xs.skip(i as int)[0] == x@[i as int]@);
    assert(ys.skip(i as int)[0] == y@[i as int]@);
    less(&x[i], &y[i])
}

/// A list in order, with one more path at its place.
pub open spec fn with_path(s: Seq<Seq<char>>, x: Seq<char>) -> Seq<Seq<char>>
    decreases s.len(),
{
    if s.len() > 0 && path_less(x, s.last()) {
        with_path(s.drop_last(), x).push(s.last())
    } else {
        s.push(x)
    }
}

/// Paths in order.
pub open spec fn ordered_paths(s: Seq<Seq<char>>) -> Seq<Seq<char>>
    decreases s.len(),
{
    if s.len() == 0 {
        s
    } else {
        with_path(ordered_paths(s.drop_last()), s.last())
    }
}

/// Whether no path comes before one that stands in front of it.
pub open spec fn paths_ascend(s: Seq<Seq<char>>) -> bool {
    forall|i: int, j: int| 0 <= i < j < s.len() ==> !path_less(#[trigger] s[j], #[trigger] s[i])
}

proof fn lemma_with_path(s: Seq<Seq<char>>, x: Seq<char>)
    requires
        paths_ascend(s),
    ensures
        paths_ascend(with_path(s, x)),
        with_path(s, x).to_multiset() == s.to_multiset().insert(x),
    decreases s.len(),
{
    broadcast use vstd::seq_lib::group_to_multiset_ensures;

    let r = with_path(s, x);
    if s.len() > 0 && path_less(x, s.last()) {
        let init = s.drop_last();
        assert(paths_ascend(init));
        lemma_with_path(init, x);
        let w = with_path(init, x);
        assert(s =~= init.push(s.last()));
        assert(r.to_multiset() =~= s.to_multiset().insert(x));
        assert forall|i: int, j: int| 0 <= i < j < r.len() implies !path_less(
            #[trigger] r[j],
            #[trigger] r[i],
        ) by {
            if j == w.len() {
                assert(w.to_multiset().count(w[i]) > 0);
                if w[i] == x {
                    lemma_parts_less_order(
                        split_at_char(x, '/'),
                        split_at_char(s.last(), '/'),
                        split_at_char(x, '/'),
                    );
                } else {
                    assert(init.to_multiset().count(w[i]) > 0);
                    assert(init.contains(w[i]));
                    let k = choose|k: int| 0 <= k < init.len() && init[k] == w[i];
                    assert(!path_less(s[s.len() - 1], s[k]));
                }
            }
        }
    } else {
        assert forall|i: int, j: int| 0 <= i < j < r.len() implies !path_less(
            #[trigger] r[j],
            #[trigger] r[i],
        ) by {
            if j == s.len() && i < s.len() - 1 {
                assert(!path_less(s[s.len() - 1], s[i]));
                lemma_parts_less_order(
                    split_at_char(x, '/'),
                    split_at_char(s[i], '/'),
                    split_at_char(s.last(), '/'),
                );
            }
        }
    }
}

/// Ordering paths keeps each of them and puts them in ascending order.
pub proof fn law_ordered_paths(s: Seq<Seq<char>>)
    ensures
        paths_ascend(ordered_paths(s)),
        ordered_paths(s).to_multiset() == s.to_multiset(),
    decreases s.len(),
{
    broadcast use vstd::seq_lib::group_to_multiset_ensures;

    if s.len() > 0 {
        law_ordered_paths(s.drop_last());
        lemma_with_path(ordered_paths(s.drop_last()), s.last());
        assert(s =~= s.drop_last().push(s.last()));
    }
}

fn insert_path(v: &mut Vec<String>, path: &str)
    ensures
        texts(final(v)@) == with_path(texts(old(v)@), path@),
{
    let ghost s = texts(v@);
    let mut n: usize = v.len();
    assert(s.take(n as int) =~= s);
    assert(with_path(s.take(n as int), path@) + s.skip(n as int) =~= with_path(s, path@));
    while n > 0 && path_before(path, &v[n - 1])
        invariant
            s == texts(v@),
            n <= v@.len(),
            with_path(s, path@) == with_path(s.take(n as int), path@) + s.skip(n as int),
        decreases n,
    {
        let ghost t = s.take(n as int);
        assert(t.last() == v@[n - 1]@);
        assert(t.drop_last() =~= s.take(n - 1));
        assert(with_path(s.take(n - 1), path@).push(t.last()) + s.skip(n as int) =~= with_path(
            s.take(n - 1),
            path@,
        ) + s.skip(n - 1));
        n -= 1;
    }
    proof {
        if n > 0 {
            assert(s.take(n as int).last() == v@[n - 1]@);
        }
    }
    let p: String = path.to_owned();
    v.insert(n, p);
    assert(texts(v@) =~= s.take(n as int).push(path@) + s.skip(n as int));
}

/// Puts the paths that were found below a directory in order.
pub fn walkdir(found: &Vec<String>) -> (r: Vec<String>)
    ensures
        texts(r@) == ordered_paths(texts(found@)),
{
    let ghost fs = texts(found@);
    let mut out: Vec<String> = Vec::new();
    let mut i: usize = 0;
    assert(texts(out@) =~= ordered_paths(fs.take(0)));
    while i < found.len()
        invariant
            fs == texts(found@),
            i <= found@.len(),
            texts(out@) == ordered_paths(fs.take(i as int)),
        decreases found@.len() - i,
    {
        assert(fs.take(i + 1).drop_last() =~= fs.take(i as int));
        assert(fs.take(i + 1).last() == found@[i as int]@);
        insert_path(&mut out, &found[i]);
        i += 1;
    }
    assert(fs.take(i as int) =~= fs);
    out
}

/// Whether a path is that of a patch file.
pub open spec fn is_patch_file(path: Seq<char>) -> bool {
    match file_name_of(path) {
        Some(name) => extension_of(name) == Some("patch"@),
        None => false,
    }
}

/// Whether there is a patch among the files that are kept for an entry that is a directory.
pub fn has_dir_patch(found: &Vec<String>) -> (r: bool)
    ensures
        r == exists|i: int| 0 <= i < found@.len() && is_patch_file((#[trigger] found@[i])@),
{
    let mut i: usize = 0;
    while i < found.len()
        invariant
            i <= found@.len(),
            forall|j: int| 0 <= j < i ==> !is_patch_file((#[trigger] found@[j])@),
        decreases found@.len() - i,
    {
        if let Some(name) = file_name(&found[i]) {
            if let Some(ext) = extension(&name) {
                if same(&ext, "patch") {
                    return true;
                }
            }
        }
        i += 1;
    }
    false
}

} // verus!
