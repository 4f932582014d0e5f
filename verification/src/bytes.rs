//! Searching in bytes.

use vstd::prelude::*;

verus! {

/// Whether `p` stands in `s` at position `i`.
pub open spec fn bytes_occur(s: Seq<u8>, p: Seq<u8>, i: int) -> bool {
    0 <= i && i + p.len() <= s.len() && s.subrange(i, i + p.len()) == p
}

/// The first position at or after `from` at which `p` stands in `s`.
pub open spec fn first_bytes(s: Seq<u8>, p: Seq<u8>, from: int) -> Option<int>
    decreases s.len() + 1 - from,
{
    if from > s.len() {
        None
    } else if bytes_occur(s, p, from) {
        Some(from)
    } else {
        first_bytes(s, p, from + 1)
    }
}

fn bytes_at(s: &[u8], p: &[u8], i: usize) -> (r: bool)
    ensures
        r == bytes_occur(s@, p@, i as int),
{
    if i > s.len() || p.len() > s.len() - i {
        return false;
    }
    let n: usize = s.len();
    let mut k: usize = 0;
    while k < p.len()
        invariant
            k <= p@.len(),
            i + p@.len() <= s@.len(),
            s@.len() == n,
            forall|j: int| 0 <= j < k ==> #[trigger] p@[j] == s@[i + j],
        decreases p@.len() - k,
    {
        if s[i + k] != p[k] {
            assert(s@.subrange(i as int, i + p@.len())[k as int] != p@[k as int]);
            return false;
        }
        k += 1;
    }
    assert(s@.subrange(i as int, i + p@.len()) =~= p@);
    true
}

/// Finds the first position at which `p` stands in `s`.
pub fn find_bytes(s: &[u8], p: &[u8]) -> (r: Option<usize>)
    ensures
        match first_bytes(s@, p@, 0) {
            Some(i) => r matches Some(k) && k == i && k <= s@.len(),
            None => r is None,
        },
{
    let n: usize = s.len();
    let mut i: usize = 0;
    while i <= n
        invariant
            s@.len() == n,
            first_bytes(s@, p@, 0) == first_bytes(s@, p@, i as int),
        decreases n + 1 - i,
    {
        if bytes_at(s, p, i) {
            return Some(i);
        }
        if i == n {
            assert(first_bytes(s@, p@, n + 1) is None);
            return None;
        }
        i += 1;
    }
    None
}

} // verus!
