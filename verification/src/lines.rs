//! Lines, words and fields of a text.

use vstd::prelude::*;
use crate::text::{
    concat, ends, index_of, lemma_concat_add, lemma_until_char, lemma_until_char_is, skip_space,
    slice_string, texts, to_chars, trim_start, until_char, white_space,
};

verus! {

// ---------------------------------------------------------------------------
// Lines
// ---------------------------------------------------------------------------

/// The lines of a text, each with its line feed; the last one may lack it.
pub open spec fn split_inclusive(s: Seq<char>) -> Seq<Seq<char>>
    decreases s.len(),
{
    if s.len() == 0 {
        Seq::empty()
    } else {
        let k = until_char(s, '\n') as int;
        if k < s.len() {
            seq![s.take(k + 1)] + split_inclusive(s.skip(k + 1))
        } else {
            seq![s]
        }
    }
}

/// A line without its line feed, nor a carriage return before that.
pub open spec fn strip_eol(line: Seq<char>) -> Seq<char> {
    if line.len() > 0 && line.last() == '\n' {
        let l = line.drop_last();
        if l.len() > 0 && l.last() == '\r' {
            l.drop_last()
        } else {
            l
        }
    } else {
        line
    }
}

/// The lines of a text without their ends.
pub open spec fn lines(s: Seq<char>) -> Seq<Seq<char>> {
    split_inclusive(s).map_values(|l: Seq<char>| strip_eol(l))
}

/// Whether a text ends with a line feed.
pub(crate) fn ends_in_newline(s: &str) -> (r: bool)
    ensures
        r == (s@.len() > 0 && s@.last() == '\n'),
{
    proof {
        reveal_strlit("\n");
    }
    let r = ends(s, "\n");
    proof {
        if s@.len() > 0 {
            assert(s@.subrange(s@.len() - 1, s@.len() as int) =~= seq![s@.last()]);
            assert("\n"@ =~= seq!['\n']);
            assert(seq![s@.last()][0] == s@.last());
        }
    }
    r
}

/// Splits a text into its lines, each with its line feed.
pub fn lines_inclusive(s: &str) -> (r: Vec<String>)
    ensures
        texts(r@) == split_inclusive(s@),
{
    let v = to_chars(s);
    let mut out: Vec<String> = Vec::new();
    let mut i: usize = 0;
    assert(s@.skip(0) =~= s@);
    assert(texts(out@) + split_inclusive(s@) =~= split_inclusive(s@));
    while i < v.len()
        invariant
            v@ == s@,
            i <= v@.len(),
            texts(out@) + split_inclusive(s@.skip(i as int)) == split_inclusive(s@),
        decreases v@.len() - i,
    {
        let k: usize = index_of(&v, '\n', i);
        let ghost rest = s@.skip(i as int);
        let ghost before = texts(out@);
        if k < v.len() {
            let line = slice_string(&v, i, k + 1);
            assert(line@ =~= rest.take(k - i + 1));
            assert(rest.skip(k - i + 1) =~= s@.skip(k + 1));
            out.push(line);
            assert(texts(out@) =~= before.push(line@));
            assert(texts(out@) + split_inclusive(s@.skip(k + 1)) =~= before + split_inclusive(rest));
            i = k + 1;
        } else {
            let line = slice_string(&v, i, k);
            assert(line@ =~= rest);
            out.push(line);
            assert(texts(out@) =~= before.push(line@));
            assert(s@.skip(k as int).len() == 0);
            assert(texts(out@) + split_inclusive(s@.skip(k as int)) =~= before + split_inclusive(
                rest,
            ));
            i = k;
        }
    }
    assert(s@.skip(i as int).len() == 0);
    assert(texts(out@) =~= texts(out@) + split_inclusive(s@.skip(i as int)));
    out
}

/// Takes the end off a line.
pub fn without_eol(line: &str) -> (r: String)
    ensures
        r@ == strip_eol(line@),
{
    let v = to_chars(line);
    let mut n: usize = v.len();
    if n > 0 && v[n - 1] == '\n' {
        n -= 1;
        if n > 0 && v[n - 1] == '\r' {
            n -= 1;
        }
    }
    let r = slice_string(&v, 0, n);
    assert(r@ =~= strip_eol(line@));
    r
}

/// Splits a text into its lines, without their ends.
pub fn plain_lines(s: &str) -> (r: Vec<String>)
    ensures
        texts(r@) == lines(s@),
{
    let full = lines_inclusive(s);
    let mut out: Vec<String> = Vec::new();
    let mut i: usize = 0;
    while i < full.len()
        invariant
            i <= full@.len(),
            texts(full@) == split_inclusive(s@),
            texts(out@) == lines(s@).take(i as int),
        decreases full@.len() - i,
    {
        let l = without_eol(&full[i]);
        let ghost before = texts(out@);
        assert(l@ == strip_eol(texts(full@)[i as int]));
        assert(lines(s@).take(i + 1) =~= before.push(l@));
        out.push(l);
        assert(texts(out@) =~= before.push(l@));
        i += 1;
    }
    assert(lines(s@).take(i as int) =~= lines(s@));
    out
}

/// The lines of a text put together again are the text.
pub proof fn lemma_split_inclusive_concat(s: Seq<char>)
    ensures
        concat(split_inclusive(s)) == s,
    decreases s.len(),
{
    lemma_until_char(s, '\n');
    if s.len() > 0 {
        let k = until_char(s, '\n') as int;
        if k < s.len() {
            let rest = s.skip(k + 1);
            lemma_split_inclusive_concat(rest);
            lemma_concat_add(seq![s.take(k + 1)], split_inclusive(rest));
            lemma_concat_one(s.take(k + 1));
            assert(s =~= s.take(k + 1) + rest);
        } else {
            lemma_concat_one(s);
        }
    }
}

/// One text put together is itself.
pub proof fn lemma_concat_one(s: Seq<char>)
    ensures
        concat(seq![s]) == s,
{
    assert(seq![s].drop_last() =~= Seq::empty());
    assert(concat(Seq::<Seq<char>>::empty()) + s =~= s);
}

/// Whether a text is one line: it holds one line feed, at its end.
pub open spec fn is_line(l: Seq<char>) -> bool {
    l.len() > 0 && l.last() == '\n' && !l.drop_last().contains('\n')
}

/// Whether a text is a last line: not empty, without a line feed.
pub open spec fn is_open_line(l: Seq<char>) -> bool {
    l.len() > 0 && !l.contains('\n')
}

/// A text that starts with a line splits into that line and the lines of the rest.
pub proof fn lemma_split_line_first(l: Seq<char>, rest: Seq<char>)
    requires
        is_line(l),
    ensures
        split_inclusive(l + rest) == seq![l] + split_inclusive(rest),
{
    let s = l + rest;
    assert forall|j: int| 0 <= j < l.len() - 1 implies s[j] != '\n' by {
        assert(s[j] == l.drop_last()[j]);
        if s[j] == '\n' {
            assert(l.drop_last().contains('\n'));
        }
    }
    lemma_until_char_is(s, '\n', l.len() - 1);
    assert(s.take(l.len() as int) =~= l);
    assert(s.skip(l.len() as int) =~= rest);
}

/// A list of lines put together splits into those lines.
pub proof fn lemma_split_of_lines(ls: Seq<Seq<char>>, rest: Seq<char>)
    requires
        forall|i: int| 0 <= i < ls.len() ==> is_line(#[trigger] ls[i]),
    ensures
        split_inclusive(concat(ls) + rest) == ls + split_inclusive(rest),
    decreases ls.len(),
{
    if ls.len() == 0 {
        assert(concat(ls) + rest =~= rest);
        assert(ls + split_inclusive(rest) =~= split_inclusive(rest));
    } else {
        let init = ls.drop_last();
        let tail = ls.last() + rest;
        assert(concat(ls) + rest =~= concat(init) + tail);
        lemma_split_of_lines(init, tail);
        lemma_split_line_first(ls.last(), rest);
        assert(init + (seq![ls.last()] + split_inclusive(rest)) =~= ls + split_inclusive(rest));
    }
}

/// Each line of a text but the last ends in a line feed, and the last does or has none.
pub proof fn lemma_lines_shape(s: Seq<char>)
    ensures
        ({
            let ls = split_inclusive(s);
            &&& forall|i: int| 0 <= i < ls.len() - 1 ==> is_line(#[trigger] ls[i])
            &&& ls.len() > 0 ==> is_line(ls.last()) || is_open_line(ls.last())
            &&& ls.len() == 0 <==> s.len() == 0
            &&& s.len() > 0 ==> (is_line(ls.last()) <==> s.last() == '\n')
        }),
    decreases s.len(),
{
    lemma_until_char(s, '\n');
    if s.len() > 0 {
        let k = until_char(s, '\n') as int;
        let ls = split_inclusive(s);
        if k < s.len() {
            let first = s.take(k + 1);
            let rest = s.skip(k + 1);
            let tail = split_inclusive(rest);
            lemma_lines_shape(rest);
            assert(!first.drop_last().contains('\n')) by {
                assert forall|j: int| 0 <= j < k implies first.drop_last()[j] != '\n' by {
                    assert(first.drop_last()[j] == s[j]);
                }
            }
            assert(is_line(first));
            assert(ls =~= seq![first] + tail);
            assert forall|i: int| 0 <= i < ls.len() - 1 implies is_line(#[trigger] ls[i]) by {
                if i > 0 {
                    assert(ls[i] == tail[i - 1]);
                }
            }
            if tail.len() > 0 {
                assert(ls.last() == tail.last());
                assert(rest.last() == s.last());
            } else {
                assert(ls.last() == first);
            }
        } else {
            assert(ls =~= seq![s]);
            assert(!s.contains('\n'));
            if s.last() == '\n' {
                assert(s[s.len() - 1] == '\n');
            }
        }
    }
}

// ---------------------------------------------------------------------------
// Words
// ---------------------------------------------------------------------------

/// The length of the part of `s` before the first white space.
pub open spec fn word_len(s: Seq<char>) -> nat
    decreases s.len(),
{
    if s.len() == 0 || white_space(s[0]) {
        0
    } else {
        1 + word_len(s.skip(1))
    }
}

/// The words of a text: its longest parts without white space.
pub open spec fn words(s: Seq<char>) -> Seq<Seq<char>>
    decreases s.len(),
{
    if s.len() == 0 {
        Seq::empty()
    } else if white_space(s[0]) {
        words(s.skip(1))
    } else {
        let k = word_len(s) as int;
        if 0 < k <= s.len() {
            seq![s.take(k)] + words(s.skip(k))
        } else {
            Seq::empty()
        }
    }
}

/// What [`word_len`] counts.
pub proof fn lemma_word_len(s: Seq<char>)
    ensures
        word_len(s) <= s.len(),
        forall|j: int| 0 <= j < word_len(s) ==> !white_space(s[j]),
        word_len(s) < s.len() ==> white_space(s[word_len(s) as int]),
    decreases s.len(),
{
    if s.len() > 0 && !white_space(s[0]) {
        lemma_word_len(s.skip(1));
        assert forall|j: int| 0 <= j < word_len(s) implies !white_space(s[j]) by {
            if j > 0 {
                assert(s[j] == s.skip(1)[j - 1]);
            }
        }
    }
}

/// [`word_len`] is the only position with its two properties.
pub proof fn lemma_word_len_is(s: Seq<char>, k: int)
    requires
        0 <= k <= s.len(),
        forall|j: int| 0 <= j < k ==> !white_space(s[j]),
        k < s.len() ==> white_space(s[k]),
    ensures
        word_len(s) == k,
{
    lemma_word_len(s);
    if word_len(s) < k {
        assert(!white_space(s[word_len(s) as int]));
    }
}

/// Leading white space makes no word.
pub proof fn lemma_words_trim_start(s: Seq<char>)
    ensures
        words(trim_start(s)) == words(s),
    decreases s.len(),
{
    if s.len() > 0 && white_space(s[0]) {
        lemma_words_trim_start(s.skip(1));
    }
}

/// Splits a text into its words.
pub fn split_words(s: &str) -> (r: Vec<String>)
    ensures
        texts(r@) == words(s@),
{
    let v = to_chars(s);
    let n: usize = v.len();
    let mut out: Vec<String> = Vec::new();
    let mut i: usize = 0;
    assert(s@.skip(0) =~= s@);
    assert(texts(out@) + words(s@) =~= words(s@));
    while i < n
        invariant
            v@ == s@,
            n == v@.len(),
            i <= n,
            texts(out@) + words(s@.skip(i as int)) == words(s@),
        decreases n - i,
    {
        let a: usize = skip_space(&v, i);
        let ghost before = texts(out@);
        proof {
            lemma_words_trim_start(s@.skip(i as int));
        }
        if a == n {
            assert(s@.skip(n as int).len() == 0);
            i = n;
        } else {
            let mut k: usize = a;
            while k < n && !v[k].is_whitespace()
                invariant
                    v@ == s@,
                    n == v@.len(),
                    a <= k <= n,
                    forall|j: int| a <= j < k ==> !white_space(s@[j]),
                decreases n - k,
            {
                k += 1;
            }
            let ghost rest = s@.skip(a as int);
            proof {
                lemma_word_len_is(rest, k - a);
            }
            let w = slice_string(&v, a, k);
            assert(w@ =~= rest.take(k - a));
            assert(rest.skip(k - a) =~= s@.skip(k as int));
            out.push(w);
            assert(texts(out@) =~= before.push(w@));
            assert(texts(out@) + words(s@.skip(k as int)) =~= before + words(rest));
            i = k;
        }
    }
    assert(s@.skip(i as int).len() == 0);
    assert(texts(out@) =~= texts(out@) + words(s@.skip(i as int)));
    out
}

// ---------------------------------------------------------------------------
// Fields between a separator
// ---------------------------------------------------------------------------

/// The parts of `s` between the occurrences of `c`; one part where there is none.
pub open spec fn split_at_char(s: Seq<char>, c: char) -> Seq<Seq<char>>
    decreases s.len(),
{
    let k = until_char(s, c) as int;
    if k < s.len() {
        seq![s.take(k)] + split_at_char(s.skip(k + 1), c)
    } else {
        seq![s]
    }
}

/// Splits a text at each `c`.
pub fn split_char(s: &str, c: char) -> (r: Vec<String>)
    ensures
        texts(r@) == split_at_char(s@, c),
{
    let v = to_chars(s);
    let n: usize = v.len();
    let mut out: Vec<String> = Vec::new();
    let mut i: usize = 0;
    assert(s@.skip(0) =~= s@);
    assert(texts(out@) + split_at_char(s@, c) =~= split_at_char(s@, c));
    loop
        invariant_except_break
            v@ == s@,
            n == v@.len(),
            i <= n,
            texts(out@) + split_at_char(s@.skip(i as int), c) == split_at_char(s@, c),
        ensures
            texts(out@) == split_at_char(s@, c),
        decreases n - i,
    {
        let k: usize = index_of(&v, c, i);
        let ghost rest = s@.skip(i as int);
        let ghost before = texts(out@);
        let part = slice_string(&v, i, k);
        assert(part@ =~= rest.take(k - i));
        out.push(part);
        assert(texts(out@) =~= before.push(part@));
        if k == n {
            assert(rest.take(k - i) =~= rest);
            assert(texts(out@) =~= before + split_at_char(rest, c));
            break;
        }
        assert(rest.skip(k - i + 1) =~= s@.skip(k + 1));
        assert(texts(out@) + split_at_char(s@.skip(k + 1), c) =~= before + split_at_char(rest, c));
        i = k + 1;
    }
    out
}

} // verus!
