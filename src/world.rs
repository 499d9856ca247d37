//! The world: entity storage partitioned by payload kind, and the registry
//! of composites that group entities under a shared lifecycle.
use crate::payload::{Payload, Value};
use std::collections::hash_map::Entry;
use std::collections::{HashMap, HashSet};
use std::marker::PhantomData;
use vstd::prelude::*;

verus! {

broadcast use vstd::std_specs::hash::group_hash_axioms;

/// What an entity holds: its id, the composite it belongs to, if any, and
/// its payload.
pub struct EntityModel {
    pub id: usize,
    pub composite: Option<usize>,
    pub value: Value,
}

/// One stored entity: a payload and an optional back-reference to the
/// composite that owns it.
pub struct Entity {
    id: usize,
    component_id: Option<usize>,
    inner: Value,
}

impl View for Entity {
    type V = EntityModel;

    closed spec fn view(&self) -> EntityModel {
        EntityModel { id: self.id, composite: self.component_id, value: self.inner }
    }
}

impl Entity {
    fn new<T: Payload>(id: usize, inner: T) -> (r: Entity)
        ensures
            r@ == (EntityModel { id, composite: None, value: inner.to_value() }),
    {
        Entity { id, component_id: None, inner: inner.into_value() }
    }

    fn new_composite<T: Payload>(id: usize, component_id: usize, inner: T) -> (r: Entity)
        ensures
            r@ == (EntityModel { id, composite: Some(component_id), value: inner.to_value() }),
    {
        Entity { id, component_id: Some(component_id), inner: inner.into_value() }
    }

    pub fn id(&self) -> (r: usize)
        ensures
            r == self@.id,
    {
        self.id
    }
}

/// An entity seen through the payload type `T`: a shared borrow, an
/// exclusive borrow or an owned entity, according to `E`.
pub struct TypedEntity<'a, T, E> {
    marker: PhantomData<&'a T>,
    entity: E,
}

impl<'a, T, E> TypedEntity<'a, T, E> {
    /// The entity this view wraps.
    pub closed spec fn entity(self) -> E {
        self.entity
    }

    fn new(entity: E) -> (r: Self)
        ensures
            r.entity() == entity,
    {
        TypedEntity { marker: PhantomData, entity }
    }
}

impl<'a, T: Payload> TypedEntity<'a, T, &'a Entity> {
    /// The payload, when the entity holds a `T`.
    pub fn as_ref(&self) -> (r: Option<&'a T>)
        ensures
            match r {
                Some(x) => T::from_value(self.entity()@.value) == Some(*x),
                None => T::from_value(self.entity()@.value) is None,
            },
    {
        let e: &'a Entity = self.entity;
        T::from_ref(&e.inner)
    }
}

impl<'a, T: Payload> TypedEntity<'a, T, &'a mut Entity> {
    /// Exclusive access to the payload, when the entity holds a `T`. Only
    /// the payload can change through it.
    pub fn as_mut(self) -> (r: Option<&'a mut T>)
        ensures
            r is Some ==> T::from_value(self.entity()@.value) == Some(*r.unwrap())
                && (*final(self.entity()))@ == (EntityModel {
                value: (*final(r.unwrap())).to_value(),
                ..self.entity()@
            }) && (*final(self.entity()))@.value.kind() == T::kind(),
            r is None ==> T::from_value(self.entity()@.value) is None && *final(self.entity())
                == *self.entity(),
    {
        let e: &'a mut Entity = self.entity;
        T::from_mut(&mut e.inner)
    }
}

impl<'a, T: Payload> TypedEntity<'a, T, Entity> {
    /// The payload, taken out of the entity, when it holds a `T`.
    pub fn inner(self) -> (r: Option<T>)
        ensures
            r == T::from_value(self.entity()@.value),
    {
        T::from_owned(self.entity.inner)
    }
}

/// A composite: the set of the entities that it groups.
pub struct Component {
    id: usize,
    entities: HashSet<usize>,
}

impl View for Component {
    type V = Set<usize>;

    closed spec fn view(&self) -> Set<usize> {
        self.entities@
    }
}

impl Component {
    /// The id the composite was registered under.
    pub closed spec fn spec_id(self) -> usize {
        self.id
    }

    fn new(id: usize, members: Vec<usize>) -> (r: Component)
        ensures
            r.spec_id() == id,
            forall|m: usize| r@.contains(m) <==> members@.contains(m),
    {
        let mut entities: HashSet<usize> = HashSet::new();
        let mut i: usize = 0;
        while i < members.len()
            invariant
                i <= members.len(),
                forall|m: usize|
                    entities@.contains(m) <==> exists|j: int| 0 <= j < i && members@[j] == m,
            decreases members.len() - i,
        {
            entities.insert(members[i]);
            i += 1;
        }
        Component { id, entities }
    }
}

/// The state of a world: the two id counters, the entities of each
/// partition by id, and the members of each composite.
pub struct WorldModel {
    pub next_entity: nat,
    pub next_composite: nat,
    pub partitions: Map<u64, Map<usize, EntityModel>>,
    pub composites: Map<usize, Set<usize>>,
}

impl WorldModel {
    /// The entities of partition `k`; empty when the partition was never made.
    pub open spec fn part(self, k: u64) -> Map<usize, EntityModel> {
        if self.partitions.contains_key(k) {
            self.partitions[k]
        } else {
            Map::empty()
        }
    }

    /// Whether partition `k` holds entity `id`.
    pub open spec fn holds(self, k: u64, id: usize) -> bool {
        self.part(k).contains_key(id)
    }

    /// The payload of type `T` stored under `id`, if any.
    pub open spec fn lookup<T: Payload>(self, id: usize) -> Option<T> {
        if self.holds(T::kind(), id) {
            T::from_value(self.part(T::kind())[id].value)
        } else {
            None
        }
    }

    /// The state after storing a new entity in partition `k`.
    pub open spec fn add_entity(self, k: u64, id: usize, composite: Option<usize>, value: Value) -> WorldModel {
        WorldModel {
            next_entity: self.next_entity + 1,
            partitions: self.partitions.insert(
                k,
                self.part(k).insert(id, EntityModel { id, composite, value }),
            ),
            ..self
        }
    }

    /// The state after storing two new entities, of kinds `k1` and `k2`,
    /// grouped in a new composite.
    pub open spec fn add_composite(self, k1: u64, v1: Value, k2: u64, v2: Value) -> WorldModel {
        let c = self.next_composite as usize;
        let id1 = self.next_entity as usize;
        let id2 = (self.next_entity + 1) as usize;
        WorldModel {
            next_composite: self.next_composite + 1,
            composites: self.composites.insert(c, set![id1, id2]),
            ..self.add_entity(k1, id1, Some(c), v1).add_entity(k2, id2, Some(c), v2)
        }
    }

    /// The state after storing a new entity of kind `k` as a member of
    /// composite `c`.
    pub open spec fn join(self, c: usize, k: u64, value: Value) -> WorldModel {
        let id = self.next_entity as usize;
        WorldModel {
            composites: self.composites.insert(c, self.composites[c].insert(id)),
            ..self.add_entity(k, id, Some(c), value)
        }
    }

    /// The state after replacing the payload of entity `id` of partition `k`.
    pub open spec fn set_value(self, k: u64, id: usize, value: Value) -> WorldModel {
        WorldModel {
            partitions: self.partitions.insert(
                k,
                self.part(k).insert(id, EntityModel { value, ..self.part(k)[id] }),
            ),
            ..self
        }
    }

    /// The members of composite `c` once `id` has left it: the composite goes
    /// when no member is left.
    pub open spec fn leave(self, c: usize, id: usize) -> Map<usize, Set<usize>> {
        let rest = self.composites[c].remove(id);
        if rest.is_empty() {
            self.composites.remove(c)
        } else {
            self.composites.insert(c, rest)
        }
    }

    /// The state after removing entity `id` from partition `k`, with the
    /// cascade on its composite.
    pub open spec fn remove_entity(self, k: u64, id: usize) -> WorldModel {
        WorldModel {
            partitions: self.partitions.insert(k, self.part(k).remove(id)),
            composites: match self.part(k)[id].composite {
                Some(c) => self.leave(c, id),
                None => self.composites,
            },
            ..self
        }
    }

    /// Whether a live entity refers back to composite `c` under `id`.
    pub open spec fn member_of(self, c: usize, id: usize) -> bool {
        exists|k: u64| #[trigger] self.holds(k, id) && self.part(k)[id].composite == Some(c)
    }

    /// The invariants of a world: each entity sits under its own id in the
    /// partition of its kind, below the entity counter, and is listed by the
    /// composite it refers to; no id is in two partitions; each composite is
    /// below the composite counter, has a member, and lists only live
    /// entities that refer back to it.
    pub open spec fn inv(self) -> bool {
        &&& 1 <= self.next_entity
        &&& 1 <= self.next_composite
        &&& forall|k: u64, id: usize| #[trigger] self.holds(k, id) ==> {
            let e = self.part(k)[id];
            &&& e.id == id
            &&& e.value.kind() == k
            &&& 1 <= id < self.next_entity
            &&& (e.composite matches Some(c) ==> self.composites.contains_key(c)
                && self.composites[c].contains(id))
        }
        &&& forall|k1: u64, k2: u64, id: usize|
            #[trigger] self.holds(k1, id) && #[trigger] self.holds(k2, id) ==> k1 == k2
        &&& forall|c: usize| #[trigger] self.composites.contains_key(c) ==> {
            &&& 1 <= c < self.next_composite
            &&& !self.composites[c].is_empty()
        }
        &&& forall|c: usize, id: usize|
            self.composites.contains_key(c) && #[trigger] self.composites[c].contains(id)
                ==> self.member_of(c, id)
    }
}

/// Adding an entity under a fresh id keeps the invariants, when its
/// composite, if any, exists and lists it.
proof fn lemma_add_entity(m: WorldModel, k: u64, composite: Option<usize>, value: Value, comps: Map<usize, Set<usize>>)
    requires
        m.inv(),
        m.next_entity < usize::MAX,
        value.kind() == k,
        composite matches Some(c) ==> comps.contains_key(c) && comps[c].contains(m.next_entity as usize),
        forall|c: usize| #[trigger] comps.contains_key(c) ==> 1 <= c < m.next_composite && !comps[c].is_empty(),
        forall|c: usize| #[trigger] m.composites.contains_key(c) ==> comps.contains_key(c)
            && m.composites[c].subset_of(comps[c]),
        forall|c: usize, id: usize|
            comps.contains_key(c) && #[trigger] comps[c].contains(id) ==> (m.composites.contains_key(c)
                && m.composites[c].contains(id)) || (id == m.next_entity && composite == Some(c)),
    ensures
        (WorldModel { composites: comps, ..m.add_entity(k, m.next_entity as usize, composite, value) }).inv(),
{
    let id = m.next_entity as usize;
    let m2 = WorldModel { composites: comps, ..m.add_entity(k, id, composite, value) };
    assert forall|k2: u64, id2: usize| #[trigger] m2.holds(k2, id2) implies {
        let e = m2.part(k2)[id2];
        &&& e.id == id2
        &&& e.value.kind() == k2
        &&& 1 <= id2 < m2.next_entity
        &&& (e.composite matches Some(c) ==> m2.composites.contains_key(c)
            && m2.composites[c].contains(id2))
    } by {
        if k2 != k || id2 != id {
            assert(m.holds(k2, id2));
            let e = m.part(k2)[id2];
            if let Some(c) = e.composite {
                assert(m.composites.contains_key(c));
            }
        }
    }
    assert forall|k1: u64, k2: u64, id2: usize|
        #[trigger] m2.holds(k1, id2) && #[trigger] m2.holds(k2, id2) implies k1 == k2 by {
        if id2 == id {
            if k1 != k {
                assert(m.holds(k1, id2));
            }
            if k2 != k {
                assert(m.holds(k2, id2));
            }
        } else {
            assert(m.holds(k1, id2));
            assert(m.holds(k2, id2));
        }
    }
    assert forall|c: usize, id2: usize|
        m2.composites.contains_key(c) && #[trigger] m2.composites[c].contains(id2)
            implies m2.member_of(c, id2) by {
        if id2 == id && composite == Some(c) {
            assert(m2.holds(k, id2));
        } else {
            assert(m.composites[c].contains(id2));
            assert(m.member_of(c, id2));
            let kk = choose|kk: u64| #[trigger] m.holds(kk, id2) && m.part(kk)[id2].composite == Some(c);
            assert(m2.holds(kk, id2));
        }
    }
}

/// Replacing the payload of an entity by one of the same kind keeps the
/// invariants.
proof fn lemma_set_value(m: WorldModel, k: u64, id: usize)
    requires
        m.inv(),
        m.holds(k, id),
    ensures
        forall|v: Value| v.kind() == k ==> (#[trigger] m.set_value(k, id, v)).inv(),
{
    assert forall|v: Value| v.kind() == k implies #[trigger] m.set_value(k, id, v).inv() by {
        let m2 = m.set_value(k, id, v);
        assert forall|k2: u64, id2: usize| #[trigger] m2.holds(k2, id2) implies m.holds(k2, id2)
            && (m2.part(k2)[id2] == m.part(k2)[id2] || (k2 == k && id2 == id)) by {}
        assert forall|k1: u64, k2: u64, id2: usize|
            #[trigger] m2.holds(k1, id2) && #[trigger] m2.holds(k2, id2) implies k1 == k2 by {
            assert(m.holds(k1, id2));
            assert(m.holds(k2, id2));
        }
        assert forall|c: usize, id2: usize|
            m2.composites.contains_key(c) && #[trigger] m2.composites[c].contains(id2)
                implies m2.member_of(c, id2) by {
            assert(m.member_of(c, id2));
            let kk = choose|kk: u64| #[trigger] m.holds(kk, id2) && m.part(kk)[id2].composite == Some(c);
            assert(m2.holds(kk, id2));
        }
    }
}

/// Removing an entity, with the cascade on its composite, keeps the
/// invariants.
proof fn lemma_remove_entity(m: WorldModel, k: u64, id: usize)
    requires
        m.inv(),
        m.holds(k, id),
    ensures
        m.remove_entity(k, id).inv(),
{
    let m2 = m.remove_entity(k, id);
    let gone = m.part(k)[id];
    assert forall|k2: u64, id2: usize| #[trigger] m2.holds(k2, id2) implies {
        let e = m2.part(k2)[id2];
        &&& e.id == id2
        &&& e.value.kind() == k2
        &&& 1 <= id2 < m2.next_entity
        &&& (e.composite matches Some(c) ==> m2.composites.contains_key(c)
            && m2.composites[c].contains(id2))
    } by {
        assert(m.holds(k2, id2));
        assert(id2 != id);
        let e = m.part(k2)[id2];
        if let Some(c) = e.composite {
            assert(m.composites.contains_key(c));
            if let Some(c0) = gone.composite {
                if c0 == c {
                    assert(m.composites[c].remove(id).contains(id2));
                }
            }
        }
    }
    assert forall|k1: u64, k2: u64, id2: usize|
        #[trigger] m2.holds(k1, id2) && #[trigger] m2.holds(k2, id2) implies k1 == k2 by {
        assert(m.holds(k1, id2));
        assert(m.holds(k2, id2));
    }
    assert forall|c: usize| #[trigger] m2.composites.contains_key(c) implies {
        &&& 1 <= c < m2.next_composite
        &&& !m2.composites[c].is_empty()
    } by {
        assert(m.composites.contains_key(c));
    }
    assert forall|c: usize, id2: usize|
        m2.composites.contains_key(c) && #[trigger] m2.composites[c].contains(id2)
            implies m2.member_of(c, id2) by {
        assert(m.composites.contains_key(c));
        assert(m.composites[c].contains(id2));
        assert(m.member_of(c, id2));
        let kk = choose|kk: u64| #[trigger] m.holds(kk, id2) && m.part(kk)[id2].composite == Some(c);
        if id2 == id {
            assert(kk == k);
            assert(gone.composite == Some(c));
            assert(m2.composites[c] == m.composites[c].remove(id));
        }
        assert(m2.holds(kk, id2));
    }
}

/// The entities of one partition.
pub closed spec fn part_view(p: HashMap<usize, Entity>) -> Map<usize, EntityModel> {
    p@.map_values(|e: Entity| e@)
}

/// The store: entities partitioned by payload kind, and composites.
pub struct World {
    component_id_counter: usize,
    entity_id_counter: usize,
    components: HashMap<usize, Component>,
    entities: HashMap<u64, HashMap<usize, Entity>>,
}

impl View for World {
    type V = WorldModel;

    closed spec fn view(&self) -> WorldModel {
        WorldModel {
            next_entity: self.entity_id_counter as nat,
            next_composite: self.component_id_counter as nat,
            partitions: self.entities@.map_values(|p: HashMap<usize, Entity>| part_view(p)),
            composites: self.components@.map_values(|c: Component| c@),
        }
    }
}

impl World {
    /// The world's invariants hold.
    pub closed spec fn wf(self) -> bool {
        &&& self@.inv()
        &&& forall|c: usize| #[trigger] self.components@.contains_key(c)
            ==> self.components@[c].spec_id() == c
    }

    /// An empty world, whose two counters start at 1.
    pub fn new() -> (r: World)
        ensures
            r.wf(),
            r@ == (WorldModel {
                next_entity: 1,
                next_composite: 1,
                partitions: Map::empty(),
                composites: Map::empty(),
            }),
    {
        let r = World {
            entity_id_counter: 1,
            component_id_counter: 1,
            components: HashMap::new(),
            entities: HashMap::new(),
        };
        assert(r@.partitions =~= Map::empty());
        assert(r@.composites =~= Map::empty());
        r
    }

    fn generate_new_entity_id(&mut self) -> (r: usize)
        requires
            old(self).entity_id_counter < usize::MAX,
        ensures
            r == old(self).entity_id_counter,
            final(self).entity_id_counter == r + 1,
            final(self).component_id_counter == old(self).component_id_counter,
            final(self).components == old(self).components,
            final(self).entities == old(self).entities,
    {
        let current = self.entity_id_counter;
        self.entity_id_counter += 1;
        current
    }

    fn generate_new_component_id(&mut self) -> (r: usize)
        requires
            old(self).component_id_counter < usize::MAX,
        ensures
            r == old(self).component_id_counter,
            final(self).component_id_counter == r + 1,
            final(self).entity_id_counter == old(self).entity_id_counter,
            final(self).components == old(self).components,
            final(self).entities == old(self).entities,
    {
        let current = self.component_id_counter;
        self.component_id_counter += 1;
        current
    }

    /// Stores `entity` under `id` in partition `kind`, making the partition
    /// when it is the first of its kind.
    fn store(&mut self, kind: u64, id: usize, entity: Entity)
        ensures
            final(self).entity_id_counter == old(self).entity_id_counter,
            final(self).component_id_counter == old(self).component_id_counter,
            final(self).components == old(self).components,
            final(self)@.partitions == old(self)@.partitions.insert(
                kind,
                old(self)@.part(kind).insert(id, entity@),
            ),
    {
        let part = self.entities.entry(kind).or_insert(HashMap::new());
        part.insert(id, entity);
        assert(self.entities@ == old(self).entities@.insert(kind, self.entities@[kind]));
        assert(self.entities@[kind]@ =~= (if old(self).entities@.contains_key(kind) {
            old(self).entities@[kind]@
        } else {
            Map::empty()
        }).insert(id, entity));
        assert(part_view(self.entities@[kind]) =~= old(self)@.part(kind).insert(id, entity@));
        assert(self@.partitions =~= old(self)@.partitions.insert(
            kind,
            old(self)@.part(kind).insert(id, entity@),
        ));
    }

    /// Stores `val` as a new standalone entity and returns its id.
    pub fn insert<T: Payload>(&mut self, val: T) -> (r: usize)
        requires
            old(self).wf(),
            old(self)@.next_entity < usize::MAX,
        ensures
            final(self).wf(),
            r == old(self)@.next_entity,
            final(self)@ == old(self)@.add_entity(T::kind(), r, None, val.to_value()),
    {
        proof {
            T::lemma_round_trip(val);
            lemma_add_entity(self@, T::kind(), None, val.to_value(), self@.composites);
        }
        let id = self.generate_new_entity_id();
        let kind = T::type_kind();
        self.store(kind, id, Entity::new(id, val));
        assert(self@.partitions =~= old(self)@.add_entity(T::kind(), id, None, val.to_value()).partitions);
        assert(self@ == old(self)@.add_entity(T::kind(), id, None, val.to_value()));
        id
    }

    /// Stores `val1` and `val2` as two new entities grouped in a new
    /// composite, and returns the composite's id.
    pub fn insert_composite<T1: Payload, T2: Payload>(&mut self, val1: T1, val2: T2) -> (r: usize)
        requires
            old(self).wf(),
            old(self)@.next_entity + 1 < usize::MAX,
            old(self)@.next_composite < usize::MAX,
        ensures
            final(self).wf(),
            r == old(self)@.next_composite,
            final(self)@ == old(self)@.add_composite(
                T1::kind(),
                val1.to_value(),
                T2::kind(),
                val2.to_value(),
            ),
    {
        let ghost m0 = self@;
        let id1 = self.generate_new_entity_id();
        let id2 = self.generate_new_entity_id();
        let comp_id = self.generate_new_component_id();
        let ghost comps = m0.composites.insert(comp_id, set![id1, id2]);
        proof {
            T1::lemma_round_trip(val1);
            T2::lemma_round_trip(val2);
            let m = WorldModel { next_composite: m0.next_composite + 1, ..m0 };
            assert forall|k: u64, id: usize| #[trigger] m.holds(k, id) implies m0.holds(k, id)
                && m.part(k) == m0.part(k) by {}
            assert forall|c: usize, id: usize|
                m.composites.contains_key(c) && #[trigger] m.composites[c].contains(id)
                    implies m.member_of(c, id) by {
                assert(m0.member_of(c, id));
                let kk = choose|kk: u64| #[trigger] m0.holds(kk, id) && m0.part(kk)[id].composite == Some(c);
                assert(m.holds(kk, id));
            }
            assert(m.inv());
            let first = m0.composites.insert(comp_id, set![id1]);
            assert(first[comp_id].contains(id1));
            lemma_add_entity(m, T1::kind(), Some(comp_id), val1.to_value(), first);
            let m1 = WorldModel { composites: first, ..m.add_entity(T1::kind(), id1, Some(comp_id), val1.to_value()) };
            assert(first.insert(comp_id, set![id1, id2]) =~= comps);
            assert(comps[comp_id].contains(id2));
            lemma_add_entity(m1, T2::kind(), Some(comp_id), val2.to_value(), comps);
        }
        let kind1 = T1::type_kind();
        self.store(kind1, id1, Entity::new_composite(id1, comp_id, val1));
        let kind2 = T2::type_kind();
        self.store(kind2, id2, Entity::new_composite(id2, comp_id, val2));
        let comp = Component::new(comp_id, vec![id1, id2]);
        assert(comp@ =~= set![id1, id2]);
        self.components.insert(comp_id, comp);
        assert(self@.composites =~= comps);
        comp_id
    }

    /// Stores `val` as a new member of composite `component_id`, and returns
    /// its id; returns `None`, and changes nothing, when no such composite
    /// is registered.
    pub fn insert_to_component<T: Payload>(&mut self, component_id: usize, val: T) -> (r: Option<usize>)
        requires
            old(self).wf(),
            old(self)@.next_entity < usize::MAX,
        ensures
            final(self).wf(),
            !old(self)@.composites.contains_key(component_id) ==> r is None && final(self)@
                == old(self)@,
            old(self)@.composites.contains_key(component_id) ==> r == Some(
                old(self)@.next_entity as usize,
            ) && final(self)@ == old(self)@.join(component_id, T::kind(), val.to_value()),
    {
        if !self.components.contains_key(&component_id) {
            return None;
        }
        let ghost m0 = self@;
        let id = self.generate_new_entity_id();
        let ghost comps = m0.composites.insert(component_id, m0.composites[component_id].insert(id));
        proof {
            T::lemma_round_trip(val);
            assert(comps[component_id].contains(id));
            lemma_add_entity(m0, T::kind(), Some(component_id), val.to_value(), comps);
        }
        let kind = T::type_kind();
        self.store(kind, id, Entity::new_composite(id, component_id, val));
        match self.components.entry(component_id) {
            Entry::Occupied(slot) => {
                let comp = slot.into_mut();
                comp.entities.insert(id);
            },
            Entry::Vacant(_) => {},
        }
        assert(self@.composites =~= comps);
        Some(id)
    }


    /// Whether partition `kind` holds entity `id`.
    fn contains(&self, kind: u64, id: &usize) -> (r: bool)
        ensures
            r == self@.holds(kind, *id),
    {
        match self.entities.get(&kind) {
            Some(part) => part.contains_key(id),
            None => false,
        }
    }

    /// The entity `id` of `T`'s partition, if there is one.
    pub fn get_entity<'a, T: Payload>(&'a self, id: &usize) -> (r: Option<TypedEntity<'a, T, &'a Entity>>)
        ensures
            match r {
                Some(te) => self@.holds(T::kind(), *id) && te.entity()@ == self@.part(T::kind())[*id],
                None => !self@.holds(T::kind(), *id),
            },
    {
        let kind = T::type_kind();
        match self.entities.get(&kind) {
            Some(part) => match part.get(id) {
                Some(entity) => Some(TypedEntity::new(entity)),
                None => None,
            },
            None => None,
        }
    }

    /// The payload of type `T` stored under `id`, if any.
    pub fn get<T: Payload>(&self, id: &usize) -> (r: Option<&T>)
        ensures
            match r {
                Some(x) => self@.lookup::<T>(*id) == Some(*x),
                None => self@.lookup::<T>(*id) is None,
            },
    {
        match self.get_entity::<T>(id) {
            Some(te) => te.as_ref(),
            None => None,
        }
    }

    /// Exclusive access to the payload of type `T` stored under `id`, if any.
    pub fn get_mut<T: Payload>(&mut self, id: &usize) -> (r: Option<&mut T>)
        requires
            old(self).wf(),
        ensures
            final(self).wf(),
            r is Some ==> old(self)@.lookup::<T>(*id) == Some(*r.unwrap()) && final(self)@
                == old(self)@.set_value(T::kind(), *id, (*final(r.unwrap())).to_value()),
            r is None ==> old(self)@.lookup::<T>(*id) is None && final(self)@ == old(self)@,
    {
        let kind = T::type_kind();
        if !self.contains(kind, id) {
            return None;
        }
        proof {
            broadcast use crate::maps::lemma_map_values_insert;

            lemma_set_value(self@, kind, *id);
            T::lemma_kind(self@.part(kind)[*id].value);
        }
        match self.entities.entry(kind) {
            Entry::Occupied(slot) => {
                let part = slot.into_mut();
                match part.entry(*id) {
                    Entry::Occupied(place) => {
                        let entity = place.into_mut();
                        let r = T::from_mut(&mut entity.inner);
                        proof {
                            if r is Some {
                                let v = (*final(r.unwrap())).to_value();
                                assert(old(self)@.set_value(kind, *id, v).inv());
                            }
                        }
                        r
                    },
                    Entry::Vacant(_) => None,
                }
            },
            Entry::Vacant(_) => None,
        }
    }


    /// Exclusive access to the entity `id` of `T`'s partition, if there is
    /// one.
    pub fn get_entity_mut<'a, T: Payload>(&'a mut self, id: &usize) -> (r: Option<
        TypedEntity<'a, T, &'a mut Entity>,
    >)
        requires
            old(self).wf(),
        ensures
            r is Some ==> {
                let before = old(self)@.part(T::kind())[*id];
                let after = (*final(r.unwrap().entity()))@;
                &&& old(self)@.holds(T::kind(), *id)
                &&& (*r.unwrap().entity())@ == before
                &&& final(self)@ == (WorldModel {
                    partitions: old(self)@.partitions.insert(
                        T::kind(),
                        old(self)@.part(T::kind()).insert(*id, after),
                    ),
                    ..old(self)@
                })
                &&& (after == (EntityModel { value: after.value, ..before }) && after.value.kind()
                    == T::kind() ==> final(self).wf())
            },
            r is None ==> !old(self)@.holds(T::kind(), *id) && *final(self) == *old(self),
    {
        let kind = T::type_kind();
        if !self.contains(kind, id) {
            return None;
        }
        proof {
            broadcast use crate::maps::lemma_map_values_insert;

            lemma_set_value(self@, kind, *id);
        }
        match self.entities.entry(kind) {
            Entry::Occupied(slot) => {
                let part = slot.into_mut();
                match part.entry(*id) {
                    Entry::Occupied(place) => {
                        let r = Some(TypedEntity::new(place.into_mut()));
                        proof {
                            let after = (*final(r.unwrap().entity()))@;
                            assert(after.value.kind() == kind ==> old(self)@.set_value(
                                kind,
                                *id,
                                after.value,
                            ).inv());
                        }
                        r
                    },
                    Entry::Vacant(_) => None,
                }
            },
            Entry::Vacant(_) => None,
        }
    }

    /// Takes `id` out of composite `c`, and drops the composite when it has
    /// no member left.
    fn leave_component(&mut self, c: usize, id: usize)
        requires
            old(self)@.composites.contains_key(c),
            forall|c2: usize| #[trigger] old(self).components@.contains_key(c2)
                ==> old(self).components@[c2].spec_id() == c2,
        ensures
            final(self).entities == old(self).entities,
            final(self).entity_id_counter == old(self).entity_id_counter,
            final(self).component_id_counter == old(self).component_id_counter,
            final(self)@.composites == old(self)@.leave(c, id),
            forall|c2: usize| #[trigger] final(self).components@.contains_key(c2)
                ==> final(self).components@[c2].spec_id() == c2,
    {
        broadcast use {crate::maps::lemma_map_values_insert, crate::maps::lemma_map_values_remove};

        let ghost m0 = self@;
        match self.components.remove(&c) {
            Some(comp) => {
                let mut comp = comp;
                comp.entities.remove(&id);
                assert(comp@ == m0.composites[c].remove(id));
                if !comp.entities.is_empty() {
                    self.components.insert(c, comp);
                }
            },
            None => {},
        }
        assert(self@.composites =~= m0.leave(c, id));
    }

    /// Removes the entity `id` of `T`'s partition and returns it; when it
    /// belonged to a composite, it leaves the composite, and a composite
    /// left with no member is removed too.
    pub fn remove_entity<'a, T: Payload>(&'a mut self, id: &usize) -> (r: Option<
        TypedEntity<'a, T, Entity>,
    >)
        requires
            old(self).wf(),
        ensures
            final(self).wf(),
            old(self)@.holds(T::kind(), *id) ==> r is Some && r.unwrap().entity()@ == old(
                self,
            )@.part(T::kind())[*id] && final(self)@ == old(self)@.remove_entity(T::kind(), *id),
            !old(self)@.holds(T::kind(), *id) ==> r is None && final(self)@ == old(self)@,
    {
        let kind = T::type_kind();
        if !self.contains(kind, id) {
            return None;
        }
        let ghost m0 = self@;
        proof {
            lemma_remove_entity(m0, kind, *id);
        }
        broadcast use {crate::maps::lemma_map_values_insert, crate::maps::lemma_map_values_remove};

        let removed = match self.entities.entry(kind) {
            Entry::Occupied(slot) => slot.into_mut().remove(id),
            Entry::Vacant(_) => None,
        };
        match removed {
            Some(entity) => {
                match entity.component_id {
                    Some(comp_id) => self.leave_component(comp_id, entity.id),
                    None => {},
                }
                assert(self@ == m0.remove_entity(kind, *id));
                Some(TypedEntity::new(entity))
            },
            None => None,
        }
    }

    /// Removes the payload of type `T` stored under `id` and returns it,
    /// with the cascade of [`World::remove_entity`].
    pub fn remove<T: Payload>(&mut self, id: &usize) -> (r: Option<T>)
        requires
            old(self).wf(),
        ensures
            final(self).wf(),
            r == old(self)@.lookup::<T>(*id),
            r is Some <==> old(self)@.holds(T::kind(), *id),
            old(self)@.holds(T::kind(), *id) ==> final(self)@ == old(self)@.remove_entity(
                T::kind(),
                *id,
            ),
            !old(self)@.holds(T::kind(), *id) ==> final(self)@ == old(self)@,
    {
        proof {
            if self@.holds(T::kind(), *id) {
                T::lemma_kind(self@.part(T::kind())[*id].value);
            }
        }
        match self.remove_entity::<T>(id) {
            Some(te) => te.inner(),
            None => None,
        }
    }

}

} // verus!
