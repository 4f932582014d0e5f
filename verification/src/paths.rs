//! Paths as texts whose parts are separated by `/`.

use vstd::prelude::*;
use vstd::string::StringExecFns;
use crate::lines::{split_at_char, split_char};
use crate::text::{same, slice_string, starts, starts_with, texts, to_chars};

verus! {

/// The parts of a path that name something: without empty parts and without `.`.
pub open spec fn named_parts(parts: Seq<Seq<char>>) -> Seq<Seq<char>>
    decreases parts.len(),
{
    if parts.len() == 0 {
        Seq::empty()
    } else {
        let init = named_parts(parts.drop_last());
        if parts.last().len() == 0 || parts.last() == "."@ {
            init
        } else {
            init.push(parts.last())
        }
    }
}

/// The name of the file a path leads to: its last part, unless that is `..`.
pub open spec fn file_name_of(path: Seq<char>) -> Option<Seq<char>> {
    let parts = named_parts(split_at_char(path, '/'));
    if parts.len() == 0 || parts.last() == ".."@ {
        None
    } else {
        Some(parts.last())
    }
}

/// The position of the last `c` in `s`; -1 where there is none.
pub open spec fn last_index(s: Seq<char>, c: char) -> int
    decreases s.len(),
{
    if s.len() == 0 {
        -1
    } else if s.last() == c {
        s.len() - 1
    } else {
        last_index(s.drop_last(), c)
    }
}

/// A file name without its extension: up to the last dot, unless the name starts with that.
pub open spec fn stem_of(name: Seq<char>) -> Seq<char> {
    let k = last_index(name, '.');
    if k > 0 {
        name.take(k)
    } else {
        name
    }
}

/// The extension of a file name: what follows the last dot, unless the name starts with that.
pub open spec fn extension_of(name: Seq<char>) -> Option<Seq<char>> {
    let k = last_index(name, '.');
    if k > 0 {
        Some(name.skip(k + 1))
    } else {
        None
    }
}

/// A path below another: the second path where it is absolute, else the two with one `/` between.
pub open spec fn join_paths(base: Seq<char>, path: Seq<char>) -> Seq<char> {
    if starts_with(path, "/"@) {
        path
    } else if base.len() == 0 || base.last() == '/' {
        base + path
    } else {
        base + "/"@ + path
    }
}

/// The position of the last `c`, where there is one.
pub fn rindex(v: &Vec<char>, c: char) -> (r: Option<usize>)
    ensures
        match r {
            Some(i) => last_index(v@, c) == i && i < v@.len(),
            None => last_index(v@, c) == -1,
        },
{
    let mut n: usize = v.len();
    assert(v@.take(n as int) =~= v@);
    while n > 0
        invariant
            n <= v@.len(),
            last_index(v@, c) == last_index(v@.take(n as int), c),
        decreases n,
    {
        if v[n - 1] == c {
            return Some(n - 1);
        }
        assert(v@.take(n as int).drop_last() =~= v@.take(n - 1));
        n -= 1;
    }
    None
}

/// The name of the file a path leads to.
pub fn file_name(path: &str) -> (r: Option<String>)
    ensures
        match r {
            Some(s) => file_name_of(path@) == Some(s@),
            None => file_name_of(path@) is None,
        },
{
    let parts = split_char(path, '/');
    let ghost ps = texts(parts@);
    let mut n: usize = parts.len();
    assert(ps.take(n as int) =~= ps);
    while n > 0
        invariant
            ps == texts(parts@),
            ps == split_at_char(path@, '/'),
            n <= parts@.len(),
            named_parts(ps) == named_parts(ps.take(n as int)),
        decreases n,
    {
        let p = &parts[n - 1];
        assert(ps.take(n as int).last() == p@);
        assert(ps.take(n as int).drop_last() =~= ps.take(n - 1));
        if !(p.as_str().is_empty() || same(p, ".")) {
            if same(p, "..") {
                return None;
            }
            return Some(p.clone());
        }
        n -= 1;
    }
    None
}

/// A file name without its extension.
pub fn file_stem(name: &str) -> (r: String)
    ensures
        r@ == stem_of(name@),
{
    let v = to_chars(name);
    match rindex(&v, '.') {
        Some(k) => if k > 0 {
            let r = slice_string(&v, 0, k);
            assert(r@ =~= name@.take(k as int));
            r
        } else {
            name.to_owned()
        },
        None => name.to_owned(),
    }
}

/// The extension of a file name.
pub fn extension(name: &str) -> (r: Option<String>)
    ensures
        match r {
            Some(s) => extension_of(name@) == Some(s@),
            None => extension_of(name@) is None,
        },
{
    let v = to_chars(name);
    match rindex(&v, '.') {
        Some(k) => if k > 0 {
            let n: usize = v.len();
            let r = slice_string(&v, k + 1, n);
            assert(r@ =~= name@.skip(k + 1));
            Some(r)
        } else {
            None
        },
        None => None,
    }
}

/// A path below another.
pub fn join_path(base: &str, path: &str) -> (r: String)
    ensures
        r@ == join_paths(base@, path@),
{
    if starts(path, "/") {
        return path.to_owned();
    }
    let v = to_chars(base);
    let mut r: String = base.to_owned();
    if v.len() > 0 && v[v.len() - 1] != '/' {
        r.append("/");
    }
    r.append(path);
    r
}

} // verus!
