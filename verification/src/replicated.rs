//! Network identities of entities.
use std::collections::HashMap;
use vstd::prelude::*;

verus! {

broadcast use vstd::std_specs::hash::group_hash_axioms;

/// Local entity, by the bits that the entity store identifies it with.
#[derive(Clone, Copy, Debug, PartialEq, Eq, Structural, Hash)]
pub struct Entity(pub u64);

/// Network identity of an entity, the same on every peer.
#[derive(Clone, Copy, Debug, PartialEq, Eq, Structural, Hash)]
pub struct NetworkId(pub u64);

/// Marker for entities that should exist on every peer.
#[derive(Clone, Copy, Debug, PartialEq, Eq, Structural)]
pub struct Replicated;

/// Monotonic counter used to assign fresh network IDs on the server.
#[derive(Debug)]
pub struct NextNetworkId(pub u64);

/// The counter after an ID was taken from it. It stays at its highest value.
pub open spec fn next_after(next: u64) -> u64 {
    if next < u64::MAX {
        (next + 1) as u64
    } else {
        u64::MAX
    }
}

/// The ID that the counter gives out after `taken` others.
pub open spec fn id_after(next: u64, taken: nat) -> u64 {
    if next + taken <= u64::MAX {
        (next + taken) as u64
    } else {
        u64::MAX
    }
}

impl Default for NextNetworkId {
    fn default() -> (counter: Self)
        ensures
            counter.0 == 0,
    {
        NextNetworkId(0)
    }
}

impl NextNetworkId {
    /// Takes the next ID.
    pub fn take(&mut self) -> (id: NetworkId)
        ensures
            id.0 == old(self).0,
            final(self).0 == next_after(old(self).0),
    {
        let id = NetworkId(self.0);
        self.0 = self.0.saturating_add(1);
        id
    }
}

/// Bidirectional index between network IDs and local entities.
#[derive(Debug)]
pub struct EntityIndex {
    by_network: HashMap<u64, u64>,
    by_entity: HashMap<u64, u64>,
}

/// What an [`EntityIndex`] holds.
#[verifier::ext_equal]
pub struct IndexView {
    pub by_network: Map<NetworkId, Entity>,
    pub by_entity: Map<Entity, NetworkId>,
}

impl View for EntityIndex {
    type V = IndexView;

    closed spec fn view(&self) -> IndexView {
        IndexView {
            by_network: Map::new(
                |id: NetworkId| self.by_network@.dom().contains(id.0),
                |id: NetworkId| Entity(self.by_network@[id.0]),
            ),
            by_entity: Map::new(
                |entity: Entity| self.by_entity@.dom().contains(entity.0),
                |entity: Entity| NetworkId(self.by_entity@[entity.0]),
            ),
        }
    }
}

impl IndexView {
    /// The index without entries.
    pub open spec fn empty() -> IndexView {
        IndexView { by_network: Map::empty(), by_entity: Map::empty() }
    }

    /// The index after a mapping was stored in both directions.
    pub open spec fn insert(self, network_id: NetworkId, entity: Entity) -> IndexView {
        IndexView {
            by_network: self.by_network.insert(network_id, entity),
            by_entity: self.by_entity.insert(entity, network_id),
        }
    }

    /// The entity of a network ID.
    pub open spec fn entity(self, network_id: NetworkId) -> Option<Entity> {
        if self.by_network.dom().contains(network_id) {
            Some(self.by_network[network_id])
        } else {
            None
        }
    }

    /// The network ID of an entity.
    pub open spec fn network_id(self, entity: Entity) -> Option<NetworkId> {
        if self.by_entity.dom().contains(entity) {
            Some(self.by_entity[entity])
        } else {
            None
        }
    }

    /// The index after an entity and its network ID were removed.
    pub open spec fn remove_entity(self, entity: Entity) -> IndexView {
        match self.network_id(entity) {
            Some(network_id) => IndexView {
                by_network: self.by_network.remove(network_id),
                by_entity: self.by_entity.remove(entity),
            },
            None => self,
        }
    }

    /// Whether the two directions say the same.
    pub open spec fn consistent(self) -> bool {
        &&& forall|id: NetworkId| #[trigger]
            self.by_network.dom().contains(id) ==> self.by_entity.dom().contains(
                self.by_network[id],
            ) && self.by_entity[self.by_network[id]] == id
        &&& forall|entity: Entity| #[trigger]
            self.by_entity.dom().contains(entity) ==> self.by_network.dom().contains(
                self.by_entity[entity],
            ) && self.by_network[self.by_entity[entity]] == entity
    }
}

impl Default for EntityIndex {
    fn default() -> (index: Self)
        ensures
            index@ == IndexView::empty(),
    {
        let index = EntityIndex { by_network: HashMap::new(), by_entity: HashMap::new() };
        assert(index@ =~= IndexView::empty());
        index
    }
}

impl EntityIndex {
    /// Stores the mapping in both directions.
    pub fn insert(&mut self, network_id: NetworkId, entity: Entity)
        ensures
            final(self)@ == old(self)@.insert(network_id, entity),
    {
        self.by_network.insert(network_id.0, entity.0);
        self.by_entity.insert(entity.0, network_id.0);
        assert(self@ =~= old(self)@.insert(network_id, entity));
    }

    /// Looks up the local entity for a network ID.
    pub fn entity(&self, network_id: NetworkId) -> (entity: Option<Entity>)
        ensures
            entity == self@.entity(network_id),
    {
        match self.by_network.get(&network_id.0) {
            Some(bits) => Some(Entity(*bits)),
            None => None,
        }
    }

    /// Looks up the network ID for a local entity.
    pub fn network_id(&self, entity: Entity) -> (network_id: Option<NetworkId>)
        ensures
            network_id == self@.network_id(entity),
    {
        match self.by_entity.get(&entity.0) {
            Some(id) => Some(NetworkId(*id)),
            None => None,
        }
    }

    /// Removes an entity from the index and returns its previous network ID.
    pub fn remove_entity(&mut self, entity: Entity) -> (network_id: Option<NetworkId>)
        ensures
            network_id == old(self)@.network_id(entity),
            final(self)@ == old(self)@.remove_entity(entity),
    {
        match self.by_entity.remove(&entity.0) {
            Some(id) => {
                self.by_network.remove(&id);
                assert(self@ =~= old(self)@.remove_entity(entity));
                Some(NetworkId(id))
            },
            None => {
                assert(self@ =~= old(self)@);
                None
            },
        }
    }
}

/// After a mapping was stored, each side is found from the other.
pub proof fn law_index_finds_what_was_stored(
    index: IndexView,
    network_id: NetworkId,
    entity: Entity,
)
    ensures
        index.insert(network_id, entity).entity(network_id) == Some(entity),
        index.insert(network_id, entity).network_id(entity) == Some(network_id),
{
}

/// The two directions of the index agree: initially, after a mapping between
/// an unused ID and an unused entity was stored, and after a removal.
pub proof fn law_index_stays_consistent(index: IndexView, network_id: NetworkId, entity: Entity)
    requires
        index.consistent(),
    ensures
        IndexView::empty().consistent(),
        index.entity(network_id) is None && index.network_id(entity) is None ==> index.insert(
            network_id,
            entity,
        ).consistent(),
        index.remove_entity(entity).consistent(),
{
}

/// Removing an entity undoes the storing of its mapping, where neither side
/// was in use before.
pub proof fn law_index_removal_undoes_insertion(
    index: IndexView,
    network_id: NetworkId,
    entity: Entity,
)
    requires
        index.entity(network_id) is None,
        index.network_id(entity) is None,
    ensures
        index.insert(network_id, entity).remove_entity(entity) == index,
{
    assert(index.insert(network_id, entity).remove_entity(entity) =~= index);
}

/// A removed entity is gone in both directions, and nothing else is.
pub proof fn law_index_removal_is_exact(index: IndexView, removed: Entity, other: Entity)
    requires
        index.consistent(),
        other != removed,
    ensures
        index.remove_entity(removed).network_id(removed) is None,
        match index.network_id(removed) {
            Some(network_id) => index.remove_entity(removed).entity(network_id) is None,
            None => true,
        },
        index.remove_entity(removed).network_id(other) == index.network_id(other),
        match index.network_id(other) {
            Some(network_id) => index.remove_entity(removed).entity(network_id) == Some(other),
            None => true,
        },
{
}

/// The IDs that the counter gives out are all different until it reaches its
/// highest value.
pub proof fn law_ids_are_fresh(next: u64, earlier: nat, later: nat)
    requires
        earlier < later,
        next + later <= u64::MAX,
    ensures
        id_after(next, earlier) < id_after(next, later),
        id_after(next_after(next), earlier) == id_after(next, earlier + 1),
{
}

/// The IDs count up from the next one and stop at the highest.
pub proof fn law_ids_count_up_to_the_highest(next: u64, taken: nat)
    ensures
        next + taken <= u64::MAX ==> id_after(next, taken) as int == next + taken,
        next + taken > u64::MAX ==> id_after(next, taken) == u64::MAX,
        next < u64::MAX ==> next_after(next) as int == next + 1,
        next_after(u64::MAX) == u64::MAX,
{
}

/// An empty index finds nothing. Storing a mapping changes what is found for its
/// ID and its entity, and nothing else.
pub proof fn law_storing_changes_one_mapping(
    index: IndexView,
    network_id: NetworkId,
    entity: Entity,
    other_id: NetworkId,
    other: Entity,
)
    ensures
        IndexView::empty().entity(other_id) is None,
        IndexView::empty().network_id(other) is None,
        index.insert(network_id, entity).entity(other_id) == if other_id == network_id {
            Some(entity)
        } else {
            index.entity(other_id)
        },
        index.insert(network_id, entity).network_id(other) == if other == entity {
            Some(network_id)
        } else {
            index.network_id(other)
        },
{
}

/// Removing an entity changes what is found for it and for the ID that it was
/// found under, and nothing else. Removing an unknown entity changes nothing.
pub proof fn law_removing_changes_one_mapping(
    index: IndexView,
    entity: Entity,
    other_id: NetworkId,
    other: Entity,
)
    ensures
        index.remove_entity(entity).network_id(other) == if other == entity {
            None
        } else {
            index.network_id(other)
        },
        index.remove_entity(entity).entity(other_id) == if index.network_id(entity) == Some(
            other_id,
        ) {
            None
        } else {
            index.entity(other_id)
        },
{
}

} // verus!
