//! Facts about maps that the store's proofs rely on.
use vstd::prelude::*;

verus! {

/// Mapping the values of a map commutes with inserting into it.
pub broadcast proof fn lemma_map_values_insert<K, V, W>(m: Map<K, V>, k: K, v: V, f: spec_fn(V) -> W)
    ensures
        #[trigger] m.insert(k, v).map_values(f) == m.map_values(f).insert(k, f(v)),
{
    assert(m.insert(k, v).map_values(f) =~= m.map_values(f).insert(k, f(v)));
}

/// Mapping the values of a map commutes with removing a key from it.
pub broadcast proof fn lemma_map_values_remove<K, V, W>(m: Map<K, V>, k: K, f: spec_fn(V) -> W)
    ensures
        #[trigger] m.remove(k).map_values(f) == m.map_values(f).remove(k),
{
    assert(m.remove(k).map_values(f) =~= m.map_values(f).remove(k));
}

} // verus!
