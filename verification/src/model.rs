//! Ghost model of the cache contents: a map from keys to stored text, and
//! the aggregate size of everything stored, counted in characters of
//! content. The aggregate is what the eviction budget is measured against.

use vstd::prelude::*;

verus! {

/// Aggregate size of a cache content map: the sum, over every key, of the
/// length of the stored content.
pub open spec fn map_bytes(m: Map<Seq<char>, Seq<char>>) -> nat
    decreases m.dom().len(),
{
    if m.dom().finite() && m.dom().len() > 0 {
        let k = m.dom().choose();
        m[k].len() + map_bytes(m.remove(k))
    } else {
        0
    }
}

/// A content map with nothing in it.
pub open spec fn empty_contents() -> Map<Seq<char>, Seq<char>> {
    Map::empty()
}

/// A rate-limit table with nothing in it.
pub open spec fn empty_stamps() -> Map<Seq<char>, u64> {
    Map::empty()
}

/// Removing a key takes exactly its contribution out of the aggregate.
pub proof fn lemma_map_bytes_remove(m: Map<Seq<char>, Seq<char>>, k: Seq<char>)
    requires
        m.dom().finite(),
        m.contains_key(k),
    ensures
        map_bytes(m) == map_bytes(m.remove(k)) + m[k].len(),
    decreases m.dom().len(),
{
    let c = m.dom().choose();
    if c == k {
    } else {
        lemma_map_bytes_remove(m.remove(c), k);
        lemma_map_bytes_remove(m.remove(k), c);
        assert(m.remove(c).remove(k) =~= m.remove(k).remove(c));
    }
}

/// Inserting a key adds the new content's length and takes out whatever the
/// key contributed before.
pub proof fn lemma_map_bytes_insert(m: Map<Seq<char>, Seq<char>>, k: Seq<char>, v: Seq<char>)
    requires
        m.dom().finite(),
    ensures
        m.contains_key(k) ==> map_bytes(m.insert(k, v)) + m[k].len() == map_bytes(m) + v.len(),
        !m.contains_key(k) ==> map_bytes(m.insert(k, v)) == map_bytes(m) + v.len(),
    decreases m.dom().len(),
{
    lemma_map_bytes_remove(m.insert(k, v), k);
    assert(m.insert(k, v).remove(k) =~= m.remove(k));
    if m.contains_key(k) {
        lemma_map_bytes_remove(m, k);
    } else {
        assert(m.remove(k) =~= m);
    }
}

} // verus!
