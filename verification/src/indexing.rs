//! The indexes by which entities are found: by the UUID of a player, and
//! by the id that the server gives an entity.

use std::collections::HashMap;
use vstd::prelude::*;

verus! {

broadcast use vstd::std_specs::hash::group_hash_axioms;

/// The entities of the players, by UUID.
#[derive(Debug)]
pub struct EntityUuidIndex {
    entity_by_uuid: HashMap<u128, u64>,
}

impl View for EntityUuidIndex {
    type V = Map<u128, u64>;

    closed spec fn view(&self) -> Map<u128, u64> {
        self.entity_by_uuid@
    }
}

impl EntityUuidIndex {
    /// An index without entities.
    pub fn new() -> (r: Self)
        ensures
            r@ == Map::<u128, u64>::empty(),
    {
        EntityUuidIndex { entity_by_uuid: HashMap::new() }
    }

    /// The entity of the player with this UUID, if there is one.
    pub fn get(&self, uuid: u128) -> (r: Option<u64>)
        ensures
            r == if self@.contains_key(uuid) {
                Some(self@[uuid])
            } else {
                None
            },
    {
        match self.entity_by_uuid.get(&uuid) {
            Some(entity) => Some(*entity),
            None => None,
        }
    }

    /// Whether a player with this UUID has an entity.
    pub fn contains_key(&self, uuid: u128) -> (b: bool)
        ensures
            b == self@.contains_key(uuid),
    {
        self.entity_by_uuid.contains_key(&uuid)
    }

    /// Sets the entity of the player with this UUID.
    pub fn insert(&mut self, uuid: u128, entity: u64)
        ensures
            final(self)@ == old(self)@.insert(uuid, entity),
    {
        self.entity_by_uuid.insert(uuid, entity);
    }

    /// Forgets the player with this UUID and gives the entity it had.
    pub fn remove(&mut self, uuid: u128) -> (r: Option<u64>)
        ensures
            final(self)@ == old(self)@.remove(uuid),
            r == if old(self)@.contains_key(uuid) {
                Some(old(self)@[uuid])
            } else {
                None
            },
    {
        self.entity_by_uuid.remove(&uuid)
    }
}

/// The entities that a client knows, by the id that the server gives them,
/// and those ids by entity.
#[derive(Debug)]
pub struct EntityIdIndex {
    entity_by_id: HashMap<i32, u64>,
    id_by_entity: HashMap<u64, i32>,
}

/// Whether `back` leads from every value of `there` to its key, and `there`
/// from every value of `back` to its key.
pub open spec fn inverse_maps(there: Map<i32, u64>, back: Map<u64, i32>) -> bool {
    &&& forall|id: i32| #[trigger]
        there.contains_key(id) ==> back.contains_key(there[id]) && back[there[id]] == id
    &&& forall|entity: u64| #[trigger]
        back.contains_key(entity) ==> there.contains_key(back[entity]) && there[back[entity]]
            == entity
}

impl EntityIdIndex {
    #[verifier::type_invariant]
    spec fn is_pairing(self) -> bool {
        inverse_maps(self.entity_by_id@, self.id_by_entity@)
    }

    /// The entities by id.
    pub closed spec fn by_id(&self) -> Map<i32, u64> {
        self.entity_by_id@
    }

    /// The ids by entity.
    pub closed spec fn by_entity(&self) -> Map<u64, i32> {
        self.id_by_entity@
    }

    /// An index without entities.
    pub fn new() -> (r: Self)
        ensures
            r.by_id() == Map::<i32, u64>::empty(),
            r.by_entity() == Map::<u64, i32>::empty(),
    {
        EntityIdIndex { entity_by_id: HashMap::new(), id_by_entity: HashMap::new() }
    }

    /// The entity with the id `id`, if the client knows one.
    pub fn get_by_minecraft_entity(&self, id: i32) -> (r: Option<u64>)
        ensures
            inverse_maps(self.by_id(), self.by_entity()),
            r == if self.by_id().contains_key(id) {
                Some(self.by_id()[id])
            } else {
                None
            },
    {
        proof {
            use_type_invariant(self);
        }
        match self.entity_by_id.get(&id) {
            Some(entity) => Some(*entity),
            None => None,
        }
    }

    /// The id of `entity`, if the client knows it.
    pub fn get_by_ecs_entity(&self, entity: u64) -> (r: Option<i32>)
        ensures
            inverse_maps(self.by_id(), self.by_entity()),
            r == if self.by_entity().contains_key(entity) {
                Some(self.by_entity()[entity])
            } else {
                None
            },
    {
        proof {
            use_type_invariant(self);
        }
        match self.id_by_entity.get(&entity) {
            Some(id) => Some(*id),
            None => None,
        }
    }

    /// Forgets the id `id` and gives the entity that had it.
    pub fn remove(&mut self, id: i32) -> (r: Option<u64>)
        ensures
            inverse_maps(final(self).by_id(), final(self).by_entity()),
            final(self).by_id() == old(self).by_id().remove(id),
            match r {
                Some(entity) => old(self).by_id().contains_key(id) && old(self).by_id()[id]
                    == entity && final(self).by_entity() == old(self).by_entity().remove(entity),
                None => !old(self).by_id().contains_key(id)
                    && final(self).by_entity() == old(self).by_entity(),
            },
    {
        proof {
            use_type_invariant(&*self);
        }
        let mut taken = EntityIdIndex::new();
        std::mem::swap(self, &mut taken);
        let EntityIdIndex { mut entity_by_id, mut id_by_entity } = taken;
        let r = entity_by_id.remove(&id);
        match r {
            Some(entity) => {
                id_by_entity.remove(&entity);
            },
            None => {},
        }
        *self = EntityIdIndex { entity_by_id, id_by_entity };
        r
    }

    /// Pairs the id `id` with `entity`. What either was paired with before
    /// is forgotten, so that every id has one entity and every entity one
    /// id.
    pub fn insert(&mut self, id: i32, entity: u64)
        ensures
            inverse_maps(final(self).by_id(), final(self).by_entity()),
            final(self).by_id().contains_key(id) && final(self).by_id()[id] == entity,
            final(self).by_entity().contains_key(entity) && final(self).by_entity()[entity] == id,
            forall|other: i32|
                other != id && old(self).by_id().contains_key(other) && old(self).by_id()[other]
                    != entity ==> #[trigger] final(self).by_id().contains_key(other)
                        && final(self).by_id()[other] == old(self).by_id()[other],
            forall|other: i32| #[trigger]
                final(self).by_id().contains_key(other) ==> other == id || (old(self).by_id().contains_key(other)
                    && old(self).by_id()[other] != entity),
    {
        proof {
            use_type_invariant(&*self);
        }
        let mut taken = EntityIdIndex::new();
        std::mem::swap(self, &mut taken);
        let EntityIdIndex { mut entity_by_id, mut id_by_entity } = taken;
        match entity_by_id.remove(&id) {
            Some(old_entity) => {
                id_by_entity.remove(&old_entity);
            },
            None => {},
        }
        assert(inverse_maps(entity_by_id@, id_by_entity@));
        match id_by_entity.remove(&entity) {
            Some(old_id) => {
                entity_by_id.remove(&old_id);
            },
            None => {},
        }
        assert(inverse_maps(entity_by_id@, id_by_entity@));
        assert(!entity_by_id@.contains_key(id));
        assert(!id_by_entity@.contains_key(entity));
        entity_by_id.insert(id, entity);
        id_by_entity.insert(entity, id);
        assert(inverse_maps(entity_by_id@, id_by_entity@));
        *self = EntityIdIndex { entity_by_id, id_by_entity };
    }
}

} // verus!
