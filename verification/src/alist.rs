//! Association lists with first-match lookup.
//!
//! Parameter tables and per-identifier builder tables are kept as plain
//! vectors of key/value pairs: lookups have an exact first-match
//! specification, and iteration order is the insertion order, so every walk
//! over a table is deterministic.

use vstd::prelude::*;

verus! {

/// The value of the first entry with key `k`, if any.
pub open spec fn alist_find<K, V>(s: Seq<(K, V)>, k: K) -> Option<V>
    decreases s.len(),
{
    if s.len() == 0 {
        None
    } else if s[0].0 == k {
        Some(s[0].1)
    } else {
        alist_find(s.drop_first(), k)
    }
}

/// When no entry of the first `i` has key `k`, the lookup is decided by the
/// rest of the list.
pub proof fn lemma_alist_find_skip<K, V>(s: Seq<(K, V)>, k: K, i: int)
    requires
        0 <= i <= s.len(),
        forall|j: int| 0 <= j < i ==> s[j].0 != k,
    ensures
        alist_find(s, k) == alist_find(s.skip(i), k),
    decreases i,
{
    if i > 0 {
        lemma_alist_find_skip(s.drop_first(), k, i - 1);
        assert(s.drop_first().skip(i - 1) =~= s.skip(i));
    } else {
        assert(s.skip(0) =~= s);
    }
}

/// First-match lookup in a table keyed by 32-bit identifiers.
pub fn alist_find_u32<V: Copy>(v: &Vec<(u32, V)>, k: u32) -> (r: Option<V>)
    ensures
        r == alist_find(v@, k),
{
    let mut i: usize = 0;
    while i < v.len()
        invariant
            i <= v@.len(),
            forall|j: int| 0 <= j < i ==> v@[j].0 != k,
        decreases v@.len() - i,
    {
        if v[i].0 == k {
            proof {
                lemma_alist_find_skip(v@, k, i as int);
            }
            return Some(v[i].1);
        }
        i += 1;
    }
    proof {
        lemma_alist_find_skip(v@, k, i as int);
    }
    None
}

/// First-match lookup in a table keyed by 64-bit addresses.
pub fn alist_find_u64<V: Copy>(v: &Vec<(u64, V)>, k: u64) -> (r: Option<V>)
    ensures
        r == alist_find(v@, k),
{
    let mut i: usize = 0;
    while i < v.len()
        invariant
            i <= v@.len(),
            forall|j: int| 0 <= j < i ==> v@[j].0 != k,
        decreases v@.len() - i,
    {
        if v[i].0 == k {
            proof {
                lemma_alist_find_skip(v@, k, i as int);
            }
            return Some(v[i].1);
        }
        i += 1;
    }
    proof {
        lemma_alist_find_skip(v@, k, i as int);
    }
    None
}

/// Whether `pos` is the position of the first entry with key `k`.
pub open spec fn is_first_match<K, V>(t: Seq<(K, V)>, k: K, pos: int) -> bool {
    &&& 0 <= pos < t.len()
    &&& t[pos].0 == k
    &&& forall|j: int| 0 <= j < pos ==> t[j].0 != k
}

/// A first match at `pos` decides the lookup.
pub proof fn lemma_first_match_find<K, V>(t: Seq<(K, V)>, pos: int, k: K)
    requires
        0 <= pos < t.len(),
        t[pos].0 == k,
        forall|j: int| 0 <= j < pos ==> t[j].0 != k,
    ensures
        alist_find(t, k) == Some(t[pos].1),
{
    lemma_alist_find_skip(t, k, pos);
    assert(t.skip(pos)[0] == t[pos]);
}

/// A successful lookup returns the value of some entry of the list.
pub proof fn lemma_alist_find_is_entry<K, V>(s: Seq<(K, V)>, k: K)
    requires
        alist_find(s, k) is Some,
    ensures
        exists|i: int| 0 <= i < s.len() && s[i].1 == alist_find(s, k)->0,
    decreases s.len(),
{
    if s.len() > 0 {
        if s[0].0 == k {
            assert(s[0].1 == alist_find(s, k)->0);
        } else {
            lemma_alist_find_is_entry(s.drop_first(), k);
            let i = choose|i: int|
                0 <= i < s.drop_first().len() && s.drop_first()[i].1 == alist_find(
                    s.drop_first(),
                    k,
                )->0;
            assert(s[i + 1].1 == alist_find(s, k)->0);
        }
    }
}

/// Position of the first entry with key `k`, if any.
pub fn alist_position_u32<V>(v: &Vec<(u32, V)>, k: u32) -> (r: Option<usize>)
    ensures
        match r {
            Some(i) => i < v@.len() && v@[i as int].0 == k && forall|j: int|
                0 <= j < i ==> v@[j].0 != k,
            None => forall|j: int| 0 <= j < v@.len() ==> v@[j].0 != k,
        },
{
    let mut i: usize = 0;
    while i < v.len()
        invariant
            i <= v@.len(),
            forall|j: int| 0 <= j < i ==> v@[j].0 != k,
        decreases v@.len() - i,
    {
        if v[i].0 == k {
            return Some(i);
        }
        i += 1;
    }
    None
}

/// Position of the first entry with key `k`, if any.
pub fn alist_position_u64<V>(v: &Vec<(u64, V)>, k: u64) -> (r: Option<usize>)
    ensures
        match r {
            Some(i) => i < v@.len() && v@[i as int].0 == k && forall|j: int|
                0 <= j < i ==> v@[j].0 != k,
            None => forall|j: int| 0 <= j < v@.len() ==> v@[j].0 != k,
        },
{
    let mut i: usize = 0;
    while i < v.len()
        invariant
            i <= v@.len(),
            forall|j: int| 0 <= j < i ==> v@[j].0 != k,
        decreases v@.len() - i,
    {
        if v[i].0 == k {
            return Some(i);
        }
        i += 1;
    }
    None
}

} // verus!
