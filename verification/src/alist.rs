//! Association lists read as finite maps.
//!
//! Both levels of the store — entity name to slot, and caller identity to
//! rating — are kept as vectors of key/value pairs whose keys never repeat.
//! This module gives such a sequence its mathematical reading as a `Map`
//! and proves how pushing and updating entries act on that reading.

use vstd::prelude::*;

verus! {

/// The map an association list denotes; a later entry for a key wins.
pub open spec fn alist_map<V>(s: Seq<(Seq<u8>, V)>) -> Map<Seq<u8>, V>
    decreases s.len(),
{
    if s.len() == 0 {
        Map::empty()
    } else {
        alist_map(s.drop_last()).insert(s.last().0, s.last().1)
    }
}

/// No two entries carry the same key.
pub open spec fn distinct_keys<V>(s: Seq<(Seq<u8>, V)>) -> bool {
    forall|i: int, j: int| 0 <= i < j < s.len() ==> s[i].0 != s[j].0
}

/// A key held by no entry is absent from the denoted map.
pub proof fn lemma_alist_absent<V>(s: Seq<(Seq<u8>, V)>, k: Seq<u8>)
    requires
        forall|i: int| 0 <= i < s.len() ==> s[i].0 != k,
    ensures
        !alist_map(s).dom().contains(k),
    decreases s.len(),
{
    if s.len() > 0 {
        assert(forall|i: int| 0 <= i < s.drop_last().len() ==> s.drop_last()[i] == s[i]);
        lemma_alist_absent(s.drop_last(), k);
    }
}

/// With distinct keys, the entry at index `i` is exactly what the denoted
/// map holds at that entry's key.
pub proof fn lemma_alist_at<V>(s: Seq<(Seq<u8>, V)>, i: int)
    requires
        distinct_keys(s),
        0 <= i < s.len(),
    ensures
        alist_map(s).dom().contains(s[i].0),
        alist_map(s)[s[i].0] == s[i].1,
    decreases s.len(),
{
    if i < s.len() - 1 {
        assert(forall|x: int| 0 <= x < s.drop_last().len() ==> s.drop_last()[x] == s[x]);
        lemma_alist_at(s.drop_last(), i);
        assert(s.last().0 != s[i].0);
    }
}

/// Appending an entry inserts its key into the denoted map.
pub proof fn lemma_alist_push<V>(s: Seq<(Seq<u8>, V)>, k: Seq<u8>, v: V)
    ensures
        alist_map(s.push((k, v))) == alist_map(s).insert(k, v),
{
    assert(s.push((k, v)).drop_last() =~= s);
}

/// Replacing the value at index `i`, keeping its key, inserts at that key.
pub proof fn lemma_alist_update<V>(s: Seq<(Seq<u8>, V)>, i: int, v: V)
    requires
        distinct_keys(s),
        0 <= i < s.len(),
    ensures
        alist_map(s.update(i, (s[i].0, v))) == alist_map(s).insert(s[i].0, v),
    decreases s.len(),
{
    let k = s[i].0;
    let t = s.update(i, (k, v));
    if i == s.len() - 1 {
        assert(t.drop_last() =~= s.drop_last());
        assert(t.last() == (k, v));
        assert(alist_map(s.drop_last()).insert(k, v) =~= alist_map(s).insert(k, v));
    } else {
        assert(forall|x: int| 0 <= x < s.drop_last().len() ==> s.drop_last()[x] == s[x]);
        lemma_alist_update(s.drop_last(), i, v);
        assert(t.drop_last() =~= s.drop_last().update(i, (k, v)));
        assert(t.last() == s.last());
        assert(s.last().0 != k);
        assert(alist_map(s.drop_last()).insert(k, v).insert(s.last().0, s.last().1)
            =~= alist_map(s).insert(k, v));
    }
}

} // verus!
