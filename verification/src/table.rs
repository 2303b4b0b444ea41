//! Association lists with unique 128-bit keys.
//!
//! The registry, the subscription table and each connection's correlation
//! table are all maps keyed by an opaque identifier.  They are stored as
//! vectors of pairs whose keys are kept unique, and specified through the
//! `Map` each list stands for.

use vstd::prelude::*;

verus! {

/// The keys of an association list, in storage order.
pub open spec fn keys_of<V>(s: Seq<(u128, V)>) -> Seq<u128> {
    s.map_values(|p: (u128, V)| p.0)
}

pub proof fn lemma_keys_of_index<V>(s: Seq<(u128, V)>)
    ensures
        keys_of(s).len() == s.len(),
        forall|i: int| 0 <= i < s.len() ==> keys_of(s)[i] == (#[trigger] s[i]).0,
{
    assert forall|i: int| 0 <= i < s.len() implies keys_of(s)[i] == (#[trigger] s[i]).0 by {
        assert(keys_of(s)[i] == s.map_values(|p: (u128, V)| p.0)[i]);
    }
}

/// No key occurs twice.
pub open spec fn unique_keys<V>(s: Seq<(u128, V)>) -> bool {
    forall|i: int, j: int| 0 <= i < j < s.len() ==> s[i].0 != s[j].0
}

/// The map an association list stands for (later entries win).
pub open spec fn map_of<V>(s: Seq<(u128, V)>) -> Map<u128, V>
    decreases s.len(),
{
    if s.len() == 0 {
        Map::empty()
    } else {
        map_of(s.drop_last()).insert(s.last().0, s.last().1)
    }
}

pub proof fn lemma_map_of_contains<V>(s: Seq<(u128, V)>, k: u128)
    ensures
        map_of(s).contains_key(k) <==> keys_of(s).contains(k),
    decreases s.len(),
{
    if s.len() > 0 {
        lemma_map_of_contains(s.drop_last(), k);
        assert(keys_of(s.drop_last()) =~= keys_of(s).drop_last());
        let n = s.len() - 1;
        assert(keys_of(s)[n] == s[n].0);
        if map_of(s).contains_key(k) {
            if k == s.last().0 {
                assert(keys_of(s)[n] == k);
            } else {
                let i = choose|i: int|
                    0 <= i < keys_of(s.drop_last()).len() && keys_of(s.drop_last())[i] == k;
                assert(keys_of(s)[i] == k);
            }
        }
        if keys_of(s).contains(k) {
            let i = choose|i: int| 0 <= i < keys_of(s).len() && keys_of(s)[i] == k;
            if i < n {
                assert(keys_of(s).drop_last()[i] == k);
            } else {
                assert(k == s.last().0);
            }
        }
    }
}

pub proof fn lemma_map_of_get<V>(s: Seq<(u128, V)>, i: int)
    requires
        unique_keys(s),
        0 <= i < s.len(),
    ensures
        map_of(s).contains_key(s[i].0),
        map_of(s)[s[i].0] == s[i].1,
    decreases s.len(),
{
    if i < s.len() - 1 {
        lemma_map_of_get(s.drop_last(), i);
    }
}

proof fn lemma_unique_keys_remove<V>(s: Seq<(u128, V)>, i: int)
    requires
        unique_keys(s),
        0 <= i < s.len(),
    ensures
        unique_keys(s.remove(i)),
{
    assert forall|a: int, b: int| 0 <= a < b < s.remove(i).len() implies s.remove(i)[a].0
        != s.remove(i)[b].0 by {
        let a0 = if a < i {
            a
        } else {
            a + 1
        };
        let b0 = if b < i {
            b
        } else {
            b + 1
        };
        assert(s.remove(i)[a] == s[a0]);
        assert(s.remove(i)[b] == s[b0]);
    }
}

pub proof fn lemma_map_of_remove<V>(s: Seq<(u128, V)>, i: int)
    requires
        unique_keys(s),
        0 <= i < s.len(),
    ensures
        map_of(s.remove(i)) =~= map_of(s).remove(s[i].0),
        unique_keys(s.remove(i)),
    decreases s.len(),
{
    lemma_unique_keys_remove(s, i);
    let p = s.last();
    let k = s[i].0;
    if i == s.len() - 1 {
        assert(s.remove(i) =~= s.drop_last());
        lemma_map_of_contains(s.drop_last(), k);
        assert(!keys_of(s.drop_last()).contains(k)) by {
            if keys_of(s.drop_last()).contains(k) {
                let j = choose|j: int|
                    0 <= j < keys_of(s.drop_last()).len() && keys_of(s.drop_last())[j] == k;
                assert(s[j].0 == k);
            }
        }
        assert(map_of(s.drop_last()) =~= map_of(s).remove(k));
    } else {
        lemma_map_of_remove(s.drop_last(), i);
        assert(s.remove(i).drop_last() =~= s.drop_last().remove(i));
        assert(s.remove(i).last() == p);
        assert(map_of(s.remove(i)) == map_of(s.drop_last().remove(i)).insert(p.0, p.1));
        assert(k != p.0);
        assert(map_of(s.drop_last()).remove(k).insert(p.0, p.1) =~= map_of(s.drop_last()).insert(
            p.0,
            p.1,
        ).remove(k));
    }
}

pub proof fn lemma_map_of_push<V>(s: Seq<(u128, V)>, k: u128, v: V)
    ensures
        map_of(s.push((k, v))) == map_of(s).insert(k, v),
{
    assert(s.push((k, v)).drop_last() =~= s);
    assert(s.push((k, v)).last() == (k, v));
}

/// The position of key `k`, if it is present.
pub fn find_index<V>(v: &Vec<(u128, V)>, k: u128) -> (r: Option<usize>)
    ensures
        match r {
            Some(i) => i < v@.len() && v@[i as int].0 == k,
            None => !keys_of(v@).contains(k),
        },
{
    let mut i: usize = 0;
    while i < v.len()
        invariant
            i <= v@.len(),
            forall|j: int| 0 <= j < i ==> v@[j].0 != k,
        decreases v@.len() - i,
    {
        if v[i].0 == k {
            return Some(i);
        }
        i += 1;
    }
    proof {
        if keys_of(v@).contains(k) {
            let j = choose|j: int| 0 <= j < keys_of(v@).len() && keys_of(v@)[j] == k;
            assert(v@[j].0 == k);
        }
    }
    None
}

/// Whether `x` occurs in `v`.
pub fn contains_id(v: &Vec<u128>, x: u128) -> (r: bool)
    ensures
        r == v@.contains(x),
{
    let mut i: usize = 0;
    while i < v.len()
        invariant
            i <= v@.len(),
            forall|j: int| 0 <= j < i ==> v@[j] != x,
        decreases v@.len() - i,
    {
        if v[i] == x {
            return true;
        }
        i += 1;
    }
    false
}

} // verus!
