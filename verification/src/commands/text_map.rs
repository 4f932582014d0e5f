//! A map from texts.

use vstd::prelude::*;
use crate::text::same;

verus! {

/// A map from texts. Of several entries of one key the last counts.
#[derive(Debug)]
pub struct TextMap<V> {
    pub entries: Vec<(String, V)>,
}

/// The value of the last entry of a key.
pub open spec fn last_of<V>(entries: Seq<(String, V)>, key: Seq<char>) -> Option<V>
    decreases entries.len(),
{
    if entries.len() == 0 {
        None
    } else if entries.last().0@ == key {
        Some(entries.last().1)
    } else {
        last_of(entries.drop_last(), key)
    }
}

impl<V> TextMap<V> {
    /// The value of a key.
    pub open spec fn at(&self, key: Seq<char>) -> Option<V> {
        last_of(self.entries@, key)
    }

    /// The empty map.
    pub fn new() -> (r: Self)
        ensures
            forall|k: Seq<char>| #[trigger] r.at(k) is None,
    {
        TextMap { entries: Vec::new() }
    }

    /// Sets the value of a key; those of other keys stay.
    pub fn insert(&mut self, key: String, value: V)
        ensures
            final(self).at(key@) == Some(value),
            forall|k: Seq<char>| k != key@ ==> #[trigger] final(self).at(k) == old(self).at(k),
    {
        let ghost before = self.entries@;
        self.entries.push((key, value));
        assert(self.entries@.drop_last() =~= before);
    }

    /// The value of a key.
    pub fn get(&self, key: &str) -> (r: Option<&V>)
        ensures
            match self.at(key@) {
                Some(v) => r matches Some(x) && *x == v,
                None => r is None,
            },
    {
        let ghost es = self.entries@;
        let mut n: usize = self.entries.len();
        assert(es.take(n as int) =~= es);
        while n > 0
            invariant
                es == self.entries@,
                n <= es.len(),
                last_of(es, key@) == last_of(es.take(n as int), key@),
            decreases n,
        {
            assert(es.take(n as int).last() == es[n - 1]);
            assert(es.take(n as int).drop_last() =~= es.take(n - 1));
            if same(&self.entries[n - 1].0, key) {
                return Some(&self.entries[n - 1].1);
            }
            n -= 1;
        }
        None
    }

    /// Whether a key has a value.
    pub fn contains_key(&self, key: &str) -> (r: bool)
        ensures
            r == (self.at(key@) is Some),
    {
        self.get(key).is_some()
    }
}

proof fn lemma_last_of_append<V>(a: Seq<(String, V)>, b: Seq<(String, V)>, key: Seq<char>)
    ensures
        last_of(a + b, key) == (match last_of(b, key) {
            Some(v) => Some(v),
            None => last_of(a, key),
        }),
    decreases b.len(),
{
    if b.len() == 0 {
        assert(a + b =~= a);
    } else {
        assert((a + b).drop_last() =~= a + b.drop_last());
        assert((a + b).last() == b.last());
        lemma_last_of_append(a, b.drop_last(), key);
    }
}

impl<V> TextMap<V> {
    /// Sets the values of keys, one after the other; those of other keys stay.
    pub fn extend(&mut self, more: Vec<(String, V)>)
        ensures
            forall|k: Seq<char>| #[trigger]
                final(self).at(k) == (match last_of(more@, k) {
                    Some(v) => Some(v),
                    None => old(self).at(k),
                }),
    {
        let ghost before = self.entries@;
        let ghost added = more@;
        let mut rest = more;
        self.entries.append(&mut rest);
        proof {
            assert(self.entries@ =~= before + added);
            assert forall|k: Seq<char>| #[trigger]
                self.at(k) == (match last_of(added, k) {
                    Some(v) => Some(v),
                    None => last_of(before, k),
                }) by {
                lemma_last_of_append(before, added, k);
            }
        }
    }
}

} // verus!
