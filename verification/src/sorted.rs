//! Lists of texts in ascending order, each text once.

use vstd::prelude::*;
use crate::text::{lemma_text_less_order, less, same, text_less, texts};

verus! {

/// Whether texts are in strictly ascending order.
pub open spec fn ascending(s: Seq<Seq<char>>) -> bool {
    forall|i: int, j: int| 0 <= i < j < s.len() ==> text_less(#[trigger] s[i], #[trigger] s[j])
}

/// An ascending list with one more text; the same list where the text is there.
pub open spec fn with_text(s: Seq<Seq<char>>, x: Seq<char>) -> Seq<Seq<char>>
    decreases s.len(),
{
    if s.len() == 0 || text_less(s.last(), x) {
        s.push(x)
    } else if s.last() == x {
        s
    } else {
        with_text(s.drop_last(), x).push(s.last())
    }
}

/// The texts of a list, ascending and each once.
pub open spec fn sorted_set(s: Seq<Seq<char>>) -> Seq<Seq<char>>
    decreases s.len(),
{
    if s.len() == 0 {
        s
    } else {
        with_text(sorted_set(s.drop_last()), s.last())
    }
}

proof fn lemma_with_text(s: Seq<Seq<char>>, x: Seq<char>)
    requires
        ascending(s),
    ensures
        ascending(with_text(s, x)),
        forall|t: Seq<char>| #[trigger] with_text(s, x).contains(t) <==> s.contains(t) || t == x,
    decreases s.len(),
{
    let r = with_text(s, x);
    if s.len() == 0 || text_less(s.last(), x) {
        assert forall|i: int, j: int| 0 <= i < j < r.len() implies text_less(
            #[trigger] r[i],
            #[trigger] r[j],
        ) by {
            if j == s.len() {
                if i < s.len() - 1 {
                    assert(text_less(s[i], s[s.len() - 1]));
                    lemma_text_less_order(s[i], s.last(), x);
                }
            } else {
                assert(r[i] == s[i] && r[j] == s[j]);
            }
        }
        assert forall|t: Seq<char>| #[trigger] r.contains(t) <==> s.contains(t) || t == x by {
            if r.contains(t) {
                let k = choose|k: int| 0 <= k < r.len() && r[k] == t;
                if k < s.len() {
                    assert(s[k] == t);
                }
            }
            if s.contains(t) {
                let k = choose|k: int| 0 <= k < s.len() && s[k] == t;
                assert(r[k] == t);
            }
            assert(r[s.len() as int] == x);
        }
    } else if s.last() == x {
        assert(s[s.len() - 1] == x);
    } else {
        let init = s.drop_last();
        let l = s.last();
        assert(ascending(init)) by {
            assert forall|i: int, j: int| 0 <= i < j < init.len() implies text_less(
                #[trigger] init[i],
                #[trigger] init[j],
            ) by {
                assert(init[i] == s[i] && init[j] == s[j]);
            }
        }
        lemma_with_text(init, x);
        let m = with_text(init, x);
        lemma_text_less_order(x, l, l);
        assert forall|i: int, j: int| 0 <= i < j < r.len() implies text_less(
            #[trigger] r[i],
            #[trigger] r[j],
        ) by {
            if j == m.len() {
                assert(m.contains(m[i]));
                if m[i] != x {
                    let k = choose|k: int| 0 <= k < init.len() && init[k] == m[i];
                    assert(text_less(s[k], s[s.len() - 1]));
                }
            } else {
                assert(r[i] == m[i] && r[j] == m[j]);
            }
        }
        assert forall|t: Seq<char>| #[trigger] r.contains(t) <==> s.contains(t) || t == x by {
            if r.contains(t) {
                let k = choose|k: int| 0 <= k < r.len() && r[k] == t;
                if k < m.len() {
                    assert(m.contains(t));
                    if t != x {
                        let i = choose|i: int| 0 <= i < init.len() && init[i] == t;
                        assert(s[i] == t);
                    }
                } else {
                    assert(s[s.len() - 1] == t);
                }
            }
            if s.contains(t) || t == x {
                if t == l {
                    assert(r[m.len() as int] == t);
                } else {
                    if t != x {
                        let i = choose|i: int| 0 <= i < s.len() && s[i] == t;
                        assert(init[i] == t);
                    }
                    assert(m.contains(t));
                    let k = choose|k: int| 0 <= k < m.len() && m[k] == t;
                    assert(r[k] == t);
                }
            }
        }
    }
}

/// A sorted set is ascending and holds exactly the texts of the list.
pub proof fn law_sorted_set(s: Seq<Seq<char>>)
    ensures
        ascending(sorted_set(s)),
        forall|t: Seq<char>| #[trigger] sorted_set(s).contains(t) <==> s.contains(t),
    decreases s.len(),
{
    if s.len() > 0 {
        let init = s.drop_last();
        law_sorted_set(init);
        lemma_with_text(sorted_set(init), s.last());
        assert forall|t: Seq<char>| #[trigger] sorted_set(s).contains(t) <==> s.contains(t) by {
            assert(sorted_set(init).contains(t) <==> init.contains(t));
            if init.contains(t) {
                let k = choose|k: int| 0 <= k < init.len() && init[k] == t;
                assert(s[k] == t);
            }
            if s.contains(t) {
                let k = choose|k: int| 0 <= k < s.len() && s[k] == t;
                if k < init.len() {
                    assert(init[k] == t);
                }
            }
            assert(s[s.len() - 1] == s.last());
        }
    }
}

/// Adds a text to an ascending list, unless it is there.
pub fn insert_text(v: &mut Vec<String>, s: String)
    ensures
        texts(final(v)@) == with_text(texts(old(v)@), s@),
{
    let ghost t = texts(v@);
    let ghost sv = s@;
    let mut i: usize = v.len();
    assert(t.take(i as int) =~= t);
    assert(t.skip(i as int) =~= Seq::empty());
    assert(with_text(t, sv) =~= with_text(t.take(i as int), sv) + t.skip(i as int));
    while i > 0 && !less(&v[i - 1], &s)
        invariant
            t == texts(v@),
            v@ == old(v)@,
            sv == s@,
            i <= v@.len(),
            with_text(t, sv) == with_text(t.take(i as int), sv) + t.skip(i as int),
        decreases i,
    {
        assert(t.take(i as int).last() == v@[i - 1]@);
        assert(t.take(i as int).drop_last() =~= t.take(i - 1));
        if same(&v[i - 1], &s) {
            assert(t.take(i as int) + t.skip(i as int) =~= t);
            return;
        }
        assert(with_text(t.take(i - 1), sv).push(t[i - 1]) + t.skip(i as int) =~= with_text(
            t.take(i - 1),
            sv,
        ) + t.skip(i - 1));
        i -= 1;
    }
    proof {
        if i > 0 {
            assert(t.take(i as int).last() == v@[i - 1]@);
        }
        assert(with_text(t.take(i as int), sv) == t.take(i as int).push(sv));
    }
    v.insert(i, s);
    assert(texts(v@) =~= t.take(i as int).push(sv) + t.skip(i as int));
}

/// The texts of a list, ascending and each once.
pub fn sort_set(list: &Vec<String>) -> (r: Vec<String>)
    ensures
        texts(r@) == sorted_set(texts(list@)),
{
    let ghost t = texts(list@);
    let mut out: Vec<String> = Vec::new();
    let mut i: usize = 0;
    assert(texts(out@) =~= sorted_set(t.take(0)));
    while i < list.len()
        invariant
            t == texts(list@),
            i <= list@.len(),
            texts(out@) == sorted_set(t.take(i as int)),
        decreases list@.len() - i,
    {
        assert(t.take(i + 1).drop_last() =~= t.take(i as int));
        assert(t.take(i + 1).last() == list@[i as int]@);
        insert_text(&mut out, list[i].clone());
        i += 1;
    }
    assert(t.take(i as int) =~= t);
    out
}

} // verus!
