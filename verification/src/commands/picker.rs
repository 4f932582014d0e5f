//! What the interactive lists share: keys, the highlighted row, and filtering by words.

use vstd::prelude::*;
use vstd::arithmetic::div_mod::{
    lemma_add_mod_noop, lemma_mod_add_multiples_vanish, lemma_small_mod, lemma_sub_mod_noop,
};
use crate::lines::{split_words, words};
use crate::text::{contains_text, has_text, texts};

verus! {

/// The keys that have a meaning.
#[derive(Debug, Clone, Copy, PartialEq, Eq, Structural)]
pub enum KeyCode {
    Esc,
    Enter,
    Up,
    Down,
    Home,
    End,
    Tab,
    BackTab,
    Backspace,
    Char(char),
    Other,
}

/// A key, and whether Control is held with it.
#[derive(Debug, Clone, Copy, PartialEq, Eq, Structural)]
pub struct KeyEvent {
    pub code: KeyCode,
    pub control: bool,
}

/// The row of a list that is highlighted.
#[derive(Debug, Clone, Copy, PartialEq, Eq, Structural)]
pub struct ListState {
    pub row: Option<usize>,
}

impl ListState {
    /// The state of a list of a length: its first row is highlighted, where it has one.
    pub fn first_of(len: usize) -> (r: Self)
        ensures
            r.row == first_row(len as nat),
    {
        if len == 0 {
            ListState { row: None }
        } else {
            ListState { row: Some(0) }
        }
    }

    /// Highlights a row.
    pub fn select(&mut self, row: Option<usize>)
        ensures
            final(self).row == row,
    {
        self.row = row;
    }

    /// The highlighted row.
    pub fn selected(&self) -> (r: Option<usize>)
        ensures
            r == self.row,
    {
        self.row
    }
}

/// The first row of a list of a length, where it has one.
pub open spec fn first_row(len: nat) -> Option<usize> {
    if len == 0 {
        None
    } else {
        Some(0)
    }
}

/// The last row of a list of a length, where it has one.
pub open spec fn last_row(len: nat) -> Option<usize> {
    if len == 0 {
        None
    } else {
        Some((len - 1) as usize)
    }
}

/// The row that is `delta` rows further down, round the ends of a list of a length. In an empty
/// list nothing moves; where no row is highlighted the first one counts.
pub open spec fn moved(row: Option<usize>, len: nat, delta: int) -> Option<usize> {
    if len == 0 {
        row
    } else {
        let current = match row {
            Some(r) => r,
            None => 0,
        };
        Some(((current + delta) % (len as int)) as usize)
    }
}

/// The row that is `delta` rows further down, round the ends.
pub fn next_row(row: Option<usize>, len: usize, delta: i32) -> (r: Option<usize>)
    ensures
        r == moved(row, len as nat, delta as int),
{
    if len == 0 {
        return row;
    }
    let current: usize = match row {
        Some(r) => r,
        None => 0,
    };
    let n: u128 = len as u128;
    let a: u128 = current as u128 % n;
    if delta >= 0 {
        let b: u128 = delta as u128 % n;
        let next: u128 = (a + b) % n;
        proof {
            lemma_add_mod_noop(current as int, delta as int, len as int);
        }
        Some(next as usize)
    } else {
        let down: i64 = -(delta as i64);
        let b: u128 = down as u128 % n;
        let next: u128 = (a + (n - b)) % n;
        proof {
            lemma_sub_mod_noop(current as int, down as int, len as int);
            assert(a + (n - b) == len as int * 1 + (a - b));
            lemma_mod_add_multiples_vanish(a - b, len as int);
            assert((a + (n - b)) % (n as int) == (a - b) % (len as int));
            assert(current - down == current + delta);
        }
        Some(next as usize)
    }
}

/// Moving round a list and back leads to the row one started from.
pub proof fn law_moves_undo(row: usize, len: nat, delta: int)
    requires
        row < len <= usize::MAX,
    ensures
        moved(moved(Some(row), len, delta), len, -delta) == Some(row),
        moved(Some(row), len, delta) matches Some(r) && r < len,
{
    let n = len as int;
    let there = (row + delta) % n;
    lemma_sub_mod_noop(row + delta, delta, n);
    assert(((row + delta) % n - delta % n) % n == (row + delta - delta) % n);
    lemma_sub_mod_noop(there, delta, n);
    lemma_small_mod(there as nat, len);
    lemma_small_mod(row as nat, len);
    assert((there - delta) % n == (there % n - delta % n) % n);
    assert(there + -delta == there - delta);
}

/// Whether each word of a query stands in a text.
pub open spec fn has_words(text: Seq<char>, ws: Seq<Seq<char>>) -> bool {
    forall|i: int| 0 <= i < ws.len() ==> has_text(text, #[trigger] ws[i])
}

/// Whether a text matches a query: each word of the query stands in it. The empty query matches
/// all.
pub open spec fn matches_words(text: Seq<char>, query: Seq<char>) -> bool {
    query.len() == 0 || has_words(text, words(query))
}

/// Whether a text matches a query.
pub fn text_matches(text: &str, query: &str) -> (r: bool)
    ensures
        r == matches_words(text@, query@),
{
    if query.is_empty() {
        return true;
    }
    let all = split_words(query);
    let ghost ws = texts(all@);
    let mut i: usize = 0;
    while i < all.len()
        invariant
            ws == texts(all@),
            ws == words(query@),
            query@.len() > 0,
            i <= all@.len(),
            forall|j: int| 0 <= j < i ==> has_text(text@, #[trigger] ws[j]),
        decreases all@.len() - i,
    {
        assert(ws[i as int] == all@[i as int]@);
        if !contains_text(text, &all[i]) {
            return false;
        }
        i += 1;
    }
    true
}

/// The positions of the marks that are set.
pub open spec fn picked(flags: Seq<bool>) -> Seq<usize>
    decreases flags.len(),
{
    if flags.len() == 0 {
        Seq::empty()
    } else if flags.last() {
        picked(flags.drop_last()).push((flags.len() - 1) as usize)
    } else {
        picked(flags.drop_last())
    }
}

/// All positions of a list of a length.
pub open spec fn all_rows(len: nat) -> Seq<usize> {
    Seq::new(len, |i: int| i as usize)
}

/// Where all marks are set, all positions are picked.
pub proof fn lemma_all_picked(flags: Seq<bool>)
    requires
        forall|i: int| 0 <= i < flags.len() ==> flags[i],
    ensures
        picked(flags) == all_rows(flags.len()),
    decreases flags.len(),
{
    if flags.len() > 0 {
        assert forall|i: int| 0 <= i < flags.len() - 1 implies flags.drop_last()[i] by {
            assert(flags[i]);
        }
        lemma_all_picked(flags.drop_last());
        assert(flags[flags.len() - 1]);
        assert(picked(flags) =~= all_rows(flags.len()));
    } else {
        assert(picked(flags) =~= all_rows(0));
    }
}

/// What is picked are exactly the positions whose mark is set, in ascending order.
pub proof fn law_picked(flags: Seq<bool>)
    requires
        flags.len() <= usize::MAX,
    ensures
        forall|i: int, j: int|
            0 <= i < j < picked(flags).len() ==> picked(flags)[i] < picked(flags)[j],
        forall|i: int|
            0 <= i < picked(flags).len() ==> (#[trigger] picked(flags)[i]) < flags.len()
                && flags[picked(flags)[i] as int],
        forall|p: int| 0 <= p < flags.len() && flags[p] ==> picked(flags).contains(p as usize),
    decreases flags.len(),
{
    if flags.len() > 0 {
        let init = flags.drop_last();
        law_picked(init);
        let before = picked(init);
        let all = picked(flags);
        assert forall|i: int| 0 <= i < all.len() implies (#[trigger] all[i]) < flags.len()
            && flags[all[i] as int] by {
            if i < before.len() {
                assert(all[i] == before[i]);
                assert(init[before[i] as int] == flags[before[i] as int]);
            }
        }
        assert forall|i: int, j: int| 0 <= i < j < all.len() implies all[i] < all[j] by {
            assert(all[i] == before[i]);
            if j < before.len() {
                assert(all[j] == before[j]);
            }
        }
        assert forall|p: int| 0 <= p < flags.len() && flags[p] implies all.contains(
            p as usize,
        ) by {
            if p < init.len() {
                assert(init[p]);
                assert(before.contains(p as usize));
                let k = choose|k: int| 0 <= k < before.len() && before[k] == p as usize;
                assert(all[k] == p as usize);
            } else {
                assert(all[before.len() as int] == p as usize);
            }
        }
    }
}

} // verus!
