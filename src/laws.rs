//! Properties that hold across the operations of a world, stated over the
//! states that the operations' contracts describe.
use crate::payload::{Payload, Value};
use crate::world::WorldModel;
use vstd::prelude::*;

verus! {

/// The id handed to a new entity is used by no live entity, and the one
/// handed out after it is strictly larger; the same holds of composite
/// ids, whose counter moves independently of the entity counter.
pub proof fn law_fresh_increasing_ids(m: WorldModel, k: u64, v: Value, k1: u64, v1: Value, k2: u64, v2: Value)
    requires
        m.inv(),
        m.next_entity + 1 < usize::MAX,
        m.next_composite < usize::MAX,
    ensures
        forall|kind: u64| !#[trigger] m.holds(kind, m.next_entity as usize),
        m.add_entity(k, m.next_entity as usize, None, v).next_entity == m.next_entity + 1,
        m.add_entity(k, m.next_entity as usize, None, v).next_composite == m.next_composite,
        !m.composites.contains_key(m.next_composite as usize),
        m.add_composite(k1, v1, k2, v2).next_composite == m.next_composite + 1,
        m.add_composite(k1, v1, k2, v2).next_entity == m.next_entity + 2,
{
}

/// The state after storing each `(kind, payload)` of `items` in turn as a
/// standalone entity.
pub open spec fn insert_all(m: WorldModel, items: Seq<(u64, Value)>) -> WorldModel
    decreases items.len(),
{
    if items.len() == 0 {
        m
    } else {
        let before = insert_all(m, items.drop_last());
        before.add_entity(items.last().0, before.next_entity as usize, None, items.last().1)
    }
}

/// Over any run of inserts, the `i`-th one is handed the id
/// `next_entity + i`: the ids of a run are distinct and strictly
/// increasing, and the composite counter does not move.
pub proof fn law_insert_run_ids(m: WorldModel, items: Seq<(u64, Value)>)
    ensures
        forall|i: int| 0 <= i <= items.len() ==> #[trigger] insert_all(m, items.take(i)).next_entity
            == m.next_entity + i,
        insert_all(m, items).next_composite == m.next_composite,
{
    lemma_insert_all_counters(m, items);
    assert forall|i: int| 0 <= i <= items.len() implies #[trigger] insert_all(
        m,
        items.take(i),
    ).next_entity == m.next_entity + i by {
        lemma_insert_all_counters(m, items.take(i));
    }
}

proof fn lemma_insert_all_counters(m: WorldModel, items: Seq<(u64, Value)>)
    ensures
        insert_all(m, items).next_entity == m.next_entity + items.len(),
        insert_all(m, items).next_composite == m.next_composite,
    decreases items.len(),
{
    if items.len() > 0 {
        lemma_insert_all_counters(m, items.drop_last());
    }
}

/// Removing an entity or replacing a payload never moves a counter back,
/// so an id is never handed out twice.
pub proof fn law_counters_kept(m: WorldModel, k: u64, id: usize, v: Value)
    ensures
        m.remove_entity(k, id).next_entity == m.next_entity,
        m.remove_entity(k, id).next_composite == m.next_composite,
        m.set_value(k, id, v).next_entity == m.next_entity,
        m.set_value(k, id, v).next_composite == m.next_composite,
{
}

/// A payload stored and then looked up as its own type comes back equal.
pub proof fn law_get_after_insert<T: Payload>(m: WorldModel, v: T)
    requires
        m.inv(),
        m.next_entity < usize::MAX,
    ensures
        m.add_entity(T::kind(), m.next_entity as usize, None, v.to_value()).lookup::<T>(
            m.next_entity as usize,
        ) == Some(v),
{
    T::lemma_round_trip(v);
}

/// A payload written through exclusive access reads back as written.
pub proof fn law_read_after_write<T: Payload>(m: WorldModel, id: usize, y: T)
    requires
        m.inv(),
        m.lookup::<T>(id) is Some,
    ensures
        m.set_value(T::kind(), id, y.to_value()).lookup::<T>(id) == Some(y),
{
    T::lemma_round_trip(y);
}

/// A stored payload is removed once: the first removal finds it, and after
/// it neither a lookup nor a second removal finds anything.
pub proof fn law_remove_once<T: Payload>(m: WorldModel, id: usize)
    requires
        m.inv(),
        m.holds(T::kind(), id),
    ensures
        m.lookup::<T>(id) is Some,
        !m.remove_entity(T::kind(), id).holds(T::kind(), id),
        m.remove_entity(T::kind(), id).lookup::<T>(id) is None,
{
    T::lemma_kind(m.part(T::kind())[id].value);
}

/// Both members of a new composite are stored, and each refers back to
/// the composite, whose members are exactly the two.
pub proof fn law_composite_members(m: WorldModel, k1: u64, v1: Value, k2: u64, v2: Value)
    requires
        m.inv(),
        m.next_entity + 1 < usize::MAX,
        m.next_composite < usize::MAX,
    ensures
        ({
            let m2 = m.add_composite(k1, v1, k2, v2);
            let c = m.next_composite as usize;
            let id1 = m.next_entity as usize;
            let id2 = (m.next_entity + 1) as usize;
            &&& m2.holds(k1, id1)
            &&& m2.part(k1)[id1].composite == Some(c)
            &&& m2.holds(k2, id2)
            &&& m2.part(k2)[id2].composite == Some(c)
            &&& m2.composites[c] == set![id1, id2]
        }),
{
}

/// Removing one of two members leaves the composite with the other alone;
/// removing its last member removes the composite.
pub proof fn law_cascade(m: WorldModel, k: u64, id: usize, other: usize)
    requires
        m.inv(),
        m.holds(k, id),
        m.part(k)[id].composite is Some,
    ensures
        ({
            let c = m.part(k)[id].composite.unwrap();
            let m2 = m.remove_entity(k, id);
            &&& m.composites[c] == set![id, other] && other != id ==> m2.composites.contains_key(c)
                && m2.composites[c] == set![other]
            &&& m.composites[c] == set![id] ==> !m2.composites.contains_key(c)
        }),
{
    let c = m.part(k)[id].composite.unwrap();
    if m.composites[c] == set![id, other] && other != id {
        assert(set![id, other].remove(id) =~= set![other]);
        assert(set![other].contains(other));
    }
    if m.composites[c] == set![id] {
        assert(set![id].remove(id) =~= Set::<usize>::empty());
    }
}

/// An id stored under one payload type is not found under another.
pub proof fn law_kind_isolation<A: Payload, B: Payload>(m: WorldModel, id: usize)
    requires
        m.inv(),
        m.holds(A::kind(), id),
        A::kind() != B::kind(),
    ensures
        m.lookup::<B>(id) is None,
{
}

} // verus!
