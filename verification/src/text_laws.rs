//! How texts are taken apart into lines, words and parts.

use vstd::prelude::*;
use crate::lines::{
    is_line, lemma_split_inclusive_concat, lemma_word_len_is, lines, split_at_char, split_inclusive,
    words,
};
use crate::numbers::{all_digits, parse_decimal};
use crate::text::{
    concat, join, lemma_until_char, lemma_until_char_is, lower_char, pad_to, trim_both, trim_end,
    trim_start, until_char, white_space,
};

verus! {

/// Whether a text is white space only.
pub open spec fn blank(s: Seq<char>) -> bool {
    forall|i: int| 0 <= i < s.len() ==> white_space(#[trigger] s[i])
}

/// Whether a text starts and ends with something else than white space.
pub open spec fn trimmed(s: Seq<char>) -> bool {
    s.len() > 0 ==> !white_space(s[0]) && !white_space(s.last())
}

proof fn lemma_trim_start(a: Seq<char>, s: Seq<char>)
    requires
        blank(a),
        s.len() > 0 ==> !white_space(s[0]),
    ensures
        trim_start(a + s) == s,
    decreases a.len(),
{
    if a.len() == 0 {
        assert(a + s =~= s);
    } else {
        let rest = a.skip(1);
        assert(white_space(a[0]));
        assert((a + s).skip(1) =~= rest + s);
        assert forall|i: int| 0 <= i < rest.len() implies white_space(#[trigger] rest[i]) by {
            assert(rest[i] == a[i + 1]);
        }
        lemma_trim_start(rest, s);
    }
}

proof fn lemma_trim_end(s: Seq<char>, b: Seq<char>)
    requires
        blank(b),
        s.len() > 0 ==> !white_space(s.last()),
    ensures
        trim_end(s + b) == s,
    decreases b.len(),
{
    if b.len() == 0 {
        assert(s + b =~= s);
    } else {
        let init = b.drop_last();
        assert(white_space(b[b.len() - 1]));
        assert((s + b).last() == b.last());
        assert((s + b).drop_last() =~= s + init);
        assert forall|i: int| 0 <= i < init.len() implies white_space(#[trigger] init[i]) by {
            assert(init[i] == b[i]);
        }
        lemma_trim_end(s, init);
    }
}

/// Trimming takes the white space off both ends of a text and leaves what is between.
pub proof fn law_trimming(a: Seq<char>, s: Seq<char>, b: Seq<char>)
    requires
        blank(a),
        trimmed(s),
        blank(b),
        s.len() > 0,
    ensures
        trim_both(a + s + b) == s,
        trim_start(a + s + b) == s + b,
        trim_both(a).len() == 0,
{
    assert(a + s + b =~= a + (s + b));
    lemma_trim_start(a, s + b);
    lemma_trim_end(s, b);
    let none = Seq::<char>::empty();
    lemma_trim_start(a, none);
    assert(a + none =~= a);
    lemma_trim_end(none, none);
    assert(none + none =~= none);
}

/// The lines of a text, one behind the other, are the text; each but the last ends with a line feed
/// and holds no other.
pub proof fn law_lines_make_the_text(s: Seq<char>, i: int)
    ensures
        concat(split_inclusive(s)) == s,
        0 <= i < split_inclusive(s).len() - 1 ==> is_line(split_inclusive(s)[i]),
    decreases s.len(),
{
    lemma_split_inclusive_concat(s);
    lemma_until_char(s, '\n');
    let k = until_char(s, '\n') as int;
    if 0 <= i < split_inclusive(s).len() - 1 {
        let l = s.take(k + 1);
        if i == 0 {
            assert forall|j: int| 0 <= j < l.drop_last().len() implies l.drop_last()[j] != '\n' by {
                assert(s[j] != '\n');
            }
            assert(is_line(l));
        } else {
            law_lines_make_the_text(s.skip(k + 1), i - 1);
        }
    }
}

/// A line ends at a line feed, and a carriage return before it is no part of the line either.
pub proof fn law_line_ends(l: Seq<char>, rest: Seq<char>)
    requires
        !l.contains('\n'),
    ensures
        lines(l + seq!['\r', '\n'] + rest) == seq![l] + lines(rest),
        l.len() > 0 && l.last() == '\r' || lines(l + seq!['\n'] + rest) == seq![l] + lines(rest),
        l.len() > 0 ==> lines(l) == seq![l],
{
    lemma_one_line(l + seq!['\r'], rest);
    assert(l + seq!['\r', '\n'] + rest =~= (l + seq!['\r']).push('\n') + rest);
    let a = (l + seq!['\r']).push('\n');
    assert(a.drop_last() =~= l + seq!['\r']);
    assert((l + seq!['\r']).drop_last() =~= l);
    lemma_one_line(l, rest);
    assert(l + seq!['\n'] + rest =~= l.push('\n') + rest);
    assert(l.push('\n').drop_last() =~= l);
    assert(lines(l + seq!['\r', '\n'] + rest) =~= seq![l] + lines(rest));
    if !(l.len() > 0 && l.last() == '\r') {
        assert(lines(l + seq!['\n'] + rest) =~= seq![l] + lines(rest));
    }
    if l.len() > 0 {
        lemma_until_char(l, '\n');
        if until_char(l, '\n') < l.len() {
            assert(l.contains(l[until_char(l, '\n') as int]));
        }
        assert(split_inclusive(l) =~= seq![l]);
        assert(l.contains(l[l.len() - 1]));
        assert(lines(l) =~= seq![l]);
    }
}

proof fn lemma_one_line(l: Seq<char>, rest: Seq<char>)
    requires
        !l.contains('\n'),
    ensures
        split_inclusive(l.push('\n') + rest) == seq![l.push('\n')] + split_inclusive(rest),
{
    let s = l.push('\n') + rest;
    let n = l.len() as int;
    assert forall|j: int| 0 <= j < n implies s[j] != '\n' by {
        assert(l.contains(l[j]));
    }
    lemma_until_char_is(s, '\n', n);
    assert(s.take(n + 1) =~= l.push('\n'));
    assert(s.skip(n + 1) =~= rest);
}

/// The words of a text are its longest parts without white space, whatever stands between them.
pub proof fn law_words(w: Seq<char>, c: char, rest: Seq<char>)
    requires
        white_space(c),
        forall|i: int| 0 <= i < w.len() ==> !white_space(#[trigger] w[i]),
    ensures
        words(seq![c] + rest) == words(rest),
        w.len() > 0 ==> words(w + seq![c] + rest) == seq![w] + words(rest),
        w.len() > 0 ==> words(w) == seq![w],
{
    assert((seq![c] + rest).skip(1) =~= rest);
    assert(words(seq![c] + rest) == words(rest));
    assert(words(Seq::empty()) =~= Seq::<Seq<char>>::empty());
    if w.len() > 0 {
        let s = w + seq![c] + rest;
        let n = w.len() as int;
        assert(!white_space(w[0]));
        assert forall|j: int| 0 <= j < n implies !white_space(#[trigger] s[j]) by {
            assert(s[j] == w[j]);
        }
        lemma_word_len_is(s, n);
        assert(s.take(n) =~= w);
        assert(s.skip(n) =~= seq![c] + rest);
        assert(s[0] == w[0]);
        assert(words(s) == seq![s.take(n)] + words(s.skip(n)));
        lemma_word_len_is(w, n);
        assert(w.take(n) =~= w);
        assert(w.skip(n) =~= Seq::empty());
        assert(words(w) == seq![w.take(n)] + words(w.skip(n)));
        assert(words(w) =~= seq![w]);
    }
}

/// A text splits at each occurrence of a character and nowhere else.
pub proof fn law_splitting(a: Seq<char>, c: char, rest: Seq<char>)
    requires
        !a.contains(c),
    ensures
        split_at_char(a.push(c) + rest, c) == seq![a] + split_at_char(rest, c),
        split_at_char(a, c) == seq![a],
{
    let s = a.push(c) + rest;
    let n = a.len() as int;
    assert forall|j: int| 0 <= j < n implies s[j] != c by {
        assert(a.contains(a[j]));
    }
    lemma_until_char_is(s, c, n);
    assert(s.take(n) =~= a);
    assert(s.skip(n + 1) =~= rest);
    lemma_until_char(a, c);
    if until_char(a, c) < n {
        assert(a.contains(a[until_char(a, c) as int]));
    }
}

/// Joined texts stand in their order, with the separator between two of them and nowhere else.
pub proof fn law_joining(first: Seq<char>, rest: Seq<Seq<char>>, sep: Seq<char>)
    ensures
        join(seq![first], sep) == first,
        rest.len() > 0 ==> join(seq![first] + rest, sep) == first + sep + join(rest, sep),
    decreases rest.len(),
{
    if rest.len() > 0 {
        let all = seq![first] + rest;
        let init = rest.drop_last();
        law_joining(first, init, sep);
        assert(all.drop_last() =~= seq![first] + init);
        if init.len() == 0 {
            assert(all.drop_last() =~= seq![first]);
            assert(join(all, sep) =~= first + sep + rest[0]);
        } else {
            assert(join(all, sep) =~= first + sep + join(rest, sep));
        }
    }
}

/// Padding adds spaces behind a text up to a width, and nothing where it is as wide already.
pub proof fn law_padding(s: Seq<char>, width: nat)
    ensures
        s.is_prefix_of(pad_to(s, width)),
        pad_to(s, width).len() == if s.len() < width {
            width
        } else {
            s.len()
        },
        forall|i: int| s.len() <= i < pad_to(s, width).len() ==> pad_to(s, width)[i] == ' ',
{
    assert(pad_to(s, width).subrange(0, s.len() as int) =~= s);
}

/// The lower case of a character is another one only for the capital letters of ASCII.
pub proof fn law_lower_case(c: char)
    ensures
        'A' <= c <= 'Z' ==> lower_char(c) as u32 == c as u32 + 32,
        !('A' <= c <= 'Z') ==> lower_char(c) == c,
{
}

/// A text is read as a number only where it is digits, behind a `+` or not.
pub proof fn law_only_digits_are_numbers(s: Seq<char>, max: nat)
    ensures
        parse_decimal(s, max) is Some ==> all_digits(s) || (s.len() > 0 && s[0] == '+'
            && all_digits(s.skip(1))),
        parse_decimal(s, max) matches Some(n) ==> n <= max,
{
}

} // verus!
