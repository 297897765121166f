//! The replication state of one peer.
use vstd::prelude::*;

use crate::netres;
use crate::netres::{NetResource, NetView, PacketView, ReplicationPacket};
use crate::replicated::{Entity, EntityIndex, IndexView, NetworkId, NextNetworkId};
use crate::sync::registry::{
    ComponentRegistration, PrefabRegistration, PrefabRegistry, ResourceRegistration, SyncRegistry,
    SyncResourceRegistry, TableView,
};
use crate::sync::sequence::{ComponentUpdateSequenceState, SequenceView};

verus! {

/// Component packets that arrived before their entity spawn packet.
#[derive(Debug)]
pub struct PendingComponentUpdates {
    packets: Vec<ReplicationPacket>,
}

impl View for PendingComponentUpdates {
    type V = Seq<PacketView>;

    closed spec fn view(&self) -> Seq<PacketView> {
        netres::packet_views(self.packets@)
    }
}

impl Default for PendingComponentUpdates {
    fn default() -> (pending: Self)
        ensures
            pending@ == Seq::<PacketView>::empty(),
    {
        let pending = PendingComponentUpdates { packets: Vec::new() };
        assert(pending@ =~= Seq::<PacketView>::empty());
        pending
    }
}

/// Whether all packets of a list are component updates.
pub open spec fn only_component_updates(packets: Seq<PacketView>) -> bool {
    forall|i: int| 0 <= i < packets.len() ==> (#[trigger] packets[i]) is UpdateComponent
}

impl PendingComponentUpdates {
    /// Whether only component updates wait.
    pub open spec fn wf(&self) -> bool {
        only_component_updates(self@)
    }

    /// Replaces the packets that wait and returns those that waited.
    pub fn replace(&mut self, packets: Vec<ReplicationPacket>) -> (waited: Vec<ReplicationPacket>)
        requires
            only_component_updates(netres::packet_views(packets@)),
        ensures
            netres::packet_views(waited@) == old(self)@,
            final(self)@ == netres::packet_views(packets@),
            final(self).wf(),
    {
        let mut waited = packets;
        std::mem::swap(&mut waited, &mut self.packets);
        waited
    }
}

/// Replication state of one peer. `C`, `R` and `P` are the engine's callbacks
/// for components, resources and prefabs.
#[derive(Debug)]
#[verifier::reject_recursive_types(C)]
#[verifier::reject_recursive_types(R)]
#[verifier::reject_recursive_types(P)]
pub struct ReplicationWorld<C, R, P> {
    pub net: NetResource,
    pub next_network_id: NextNetworkId,
    pub index: EntityIndex,
    pub components: SyncRegistry<C>,
    pub resources: SyncResourceRegistry<R>,
    pub prefabs: PrefabRegistry<P>,
    pub sequence: ComponentUpdateSequenceState,
    pub pending: PendingComponentUpdates,
}

/// What a [`ReplicationWorld`] holds.
#[verifier::ext_equal]
#[verifier::reject_recursive_types(C)]
#[verifier::reject_recursive_types(R)]
#[verifier::reject_recursive_types(P)]
pub struct WorldView<C, R, P> {
    pub net: NetView,
    pub next_network_id: u64,
    pub index: IndexView,
    pub components: TableView<C>,
    pub resources: TableView<R>,
    pub prefabs: TableView<P>,
    pub sequence: SequenceView,
    pub pending: Seq<PacketView>,
}

impl<C, R, P> View for ReplicationWorld<C, R, P> {
    type V = WorldView<C, R, P>;

    open spec fn view(&self) -> WorldView<C, R, P> {
        WorldView {
            net: self.net@,
            next_network_id: self.next_network_id.0,
            index: self.index@,
            components: self.components@,
            resources: self.resources@,
            prefabs: self.prefabs@,
            sequence: self.sequence@,
            pending: self.pending@,
        }
    }
}

impl<C, R, P> WorldView<C, R, P> {
    /// The state of a peer that has just been set up.
    pub open spec fn initial() -> WorldView<C, R, P> {
        WorldView {
            net: netres::idle_net(),
            next_network_id: 0,
            index: IndexView::empty(),
            components: TableView::empty(),
            resources: TableView::empty(),
            prefabs: TableView::empty(),
            sequence: SequenceView::initial(),
            pending: Seq::empty(),
        }
    }
}

impl<C: Copy, R: Copy, P: Copy> ReplicationWorld<C, R, P> {
    /// Whether the registries are well formed, and only component updates wait.
    pub open spec fn wf(&self) -> bool {
        &&& self.components.wf()
        &&& self.resources.wf()
        &&& self.prefabs.wf()
        &&& self.pending.wf()
    }

    /// Creates the state of a peer with nothing registered.
    pub fn new() -> (world: Self)
        ensures
            world.wf(),
            world@ == WorldView::<C, R, P>::initial(),
    {
        ReplicationWorld {
            net: NetResource::new(),
            next_network_id: NextNetworkId::default(),
            index: EntityIndex::default(),
            components: SyncRegistry::new(),
            resources: SyncResourceRegistry::new(),
            prefabs: PrefabRegistry::new(),
            sequence: ComponentUpdateSequenceState::default(),
            pending: PendingComponentUpdates::default(),
        }
    }
}

/// Stores all registrations in the runtime registries, in place of what was
/// registered before.
pub fn register_sync_components<C: Copy, R: Copy, P: Copy>(
    world: &mut ReplicationWorld<C, R, P>,
    components: &Vec<ComponentRegistration<C>>,
    resources: &Vec<ResourceRegistration<R>>,
    prefabs: &Vec<PrefabRegistration<P>>,
)
    requires
        old(world).wf(),
    ensures
        final(world).wf(),
        final(world)@ == (WorldView {
            components: TableView::empty().register_all(components@),
            resources: TableView::empty().register_all(resources@),
            prefabs: TableView::empty().register_all(prefabs@),
            ..old(world)@
        }),
{
    let mut registry: SyncRegistry<C> = SyncRegistry::new();
    let mut index: usize = 0;
    assert(components@.take(0) =~= Seq::empty());
    while index < components.len()
        invariant
            index <= components@.len(),
            registry.wf(),
            registry@ == TableView::<C>::empty().register_all(components@.take(index as int)),
        decreases components@.len() - index,
    {
        registry.register(components[index]);
        assert(components@.take(index + 1).drop_last() =~= components@.take(index as int));
        index = index + 1;
    }
    assert(components@.take(index as int) =~= components@);

    let mut resource_registry: SyncResourceRegistry<R> = SyncResourceRegistry::new();
    let mut index: usize = 0;
    assert(resources@.take(0) =~= Seq::empty());
    while index < resources.len()
        invariant
            index <= resources@.len(),
            resource_registry.wf(),
            resource_registry@ == TableView::<R>::empty().register_all(
                resources@.take(index as int),
            ),
        decreases resources@.len() - index,
    {
        resource_registry.register(resources[index]);
        assert(resources@.take(index + 1).drop_last() =~= resources@.take(index as int));
        index = index + 1;
    }
    assert(resources@.take(index as int) =~= resources@);

    let mut prefab_registry: PrefabRegistry<P> = PrefabRegistry::new();
    let mut index: usize = 0;
    assert(prefabs@.take(0) =~= Seq::empty());
    while index < prefabs.len()
        invariant
            index <= prefabs@.len(),
            prefab_registry.wf(),
            prefab_registry@ == TableView::<P>::empty().register_all(prefabs@.take(index as int)),
        decreases prefabs@.len() - index,
    {
        prefab_registry.register(prefabs[index]);
        assert(prefabs@.take(index + 1).drop_last() =~= prefabs@.take(index as int));
        index = index + 1;
    }
    assert(prefabs@.take(index as int) =~= prefabs@);

    world.components = registry;
    world.resources = resource_registry;
    world.prefabs = prefab_registry;
}

/// Returns the next outgoing component update sequence.
pub fn next_component_update_sequence<C: Copy, R: Copy, P: Copy>(
    world: &mut ReplicationWorld<C, R, P>,
) -> (sequence: u64)
    requires
        old(world).wf(),
    ensures
        final(world).wf(),
        sequence == old(world)@.sequence.next_outgoing,
        final(world)@ == (WorldView { sequence: old(world)@.sequence.issue(1), ..old(world)@ }),
{
    world.sequence.next_outgoing()
}

/// A peer that has just been set up knows nothing and gives out zero as its
/// first network ID and one as its first number.
pub proof fn law_a_new_peer_knows_nothing<C, R, P>(wire_id: u64, id: NetworkId, entity: Entity)
    ensures
        ({
            let world = WorldView::<C, R, P>::initial();
            &&& world.net == netres::idle_net()
            &&& world.next_network_id == 0
            &&& world.index.entity(id) is None
            &&& world.index.network_id(entity) is None
            &&& world.components.lookup(wire_id) is None
            &&& world.resources.lookup(wire_id) is None
            &&& world.prefabs.lookup(wire_id) is None
            &&& world.sequence.next_outgoing == 1
            &&& world.sequence.latest_incoming == Map::<(u64, u64), u64>::empty()
            &&& world.pending.len() == 0
        }),
{
}

/// What a peer holds is what its parts hold.
pub proof fn law_a_peer_is_its_parts<C, R, P>(world: ReplicationWorld<C, R, P>)
    ensures
        world@.net == world.net@,
        world@.next_network_id == world.next_network_id.0,
        world@.index == world.index@,
        world@.components == world.components@,
        world@.resources == world.resources@,
        world@.prefabs == world.prefabs@,
        world@.sequence == world.sequence@,
        world@.pending == world.pending@,
{
}

} // verus!
