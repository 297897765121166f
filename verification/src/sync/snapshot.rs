//! The initial state that newly connected clients receive.
use vstd::prelude::*;

use crate::lists;
use crate::netmsg;
use crate::netres;
use crate::netres::{
    ConnectionId, NetResource, NetView, PacketView, ReplicationPacket, Transmission,
    TransmissionView,
};
use crate::replicated;
use crate::replicated::{Entity, IndexView, NetworkId};
use crate::sync::delivery;
use crate::sync::incoming;
use crate::sync::outgoing;
use crate::sync::outgoing::{PrefabId, SyncComponent};
use crate::sync::resource::SyncResource;
use crate::sync::sequence::ComponentUpdateSequenceState;
use crate::sync::world::{ReplicationWorld, WorldView};
use crate::wire;

verus! {

/// All values of one component type on replicated entities.
#[derive(Debug)]
pub struct ComponentSnapshot {
    pub wire_id: u64,
    /// Serialised values, each with the network ID of its entity.
    pub values: Vec<(NetworkId, Vec<u8>)>,
}

/// The value of one resource type, where there is one.
#[derive(Debug)]
pub struct ResourceSnapshot {
    pub wire_id: u64,
    pub bytes: Option<Vec<u8>>,
}

/// The replicated state at one moment.
#[derive(Debug)]
pub struct WorldSnapshot {
    /// The replicated entities with their prefabs.
    pub entities: Vec<(NetworkId, Option<PrefabId>)>,
    /// One entry for each registered component type.
    pub components: Vec<ComponentSnapshot>,
    /// One entry for each registered resource type.
    pub resources: Vec<ResourceSnapshot>,
}

/// What a [`ComponentSnapshot`] holds.
#[verifier::ext_equal]
pub struct ComponentSnapshotView {
    pub wire_id: u64,
    pub values: Seq<(NetworkId, Seq<u8>)>,
}

/// What a [`ResourceSnapshot`] holds.
#[verifier::ext_equal]
pub struct ResourceSnapshotView {
    pub wire_id: u64,
    pub bytes: Option<Seq<u8>>,
}

/// What a [`WorldSnapshot`] holds.
#[verifier::ext_equal]
pub struct SnapshotView {
    pub entities: Seq<(NetworkId, Option<PrefabId>)>,
    pub components: Seq<ComponentSnapshotView>,
    pub resources: Seq<ResourceSnapshotView>,
}

impl View for ComponentSnapshot {
    type V = ComponentSnapshotView;

    open spec fn view(&self) -> ComponentSnapshotView {
        ComponentSnapshotView {
            wire_id: self.wire_id,
            values: outgoing::update_views(self.values@),
        }
    }
}

impl View for ResourceSnapshot {
    type V = ResourceSnapshotView;

    open spec fn view(&self) -> ResourceSnapshotView {
        ResourceSnapshotView {
            wire_id: self.wire_id,
            bytes: match self.bytes {
                Some(bytes) => Some(bytes@),
                None => None,
            },
        }
    }
}

impl View for WorldSnapshot {
    type V = SnapshotView;

    open spec fn view(&self) -> SnapshotView {
        SnapshotView {
            entities: self.entities@,
            components: self.components@.map_values(|snapshot: ComponentSnapshot| snapshot@),
            resources: self.resources@.map_values(|snapshot: ResourceSnapshot| snapshot@),
        }
    }
}

/// The spawn packets for replicated entities.
pub open spec fn spawn_all(entities: Seq<(NetworkId, Option<PrefabId>)>) -> Seq<PacketView> {
    entities.map_values(
        |entity: (NetworkId, Option<PrefabId>)|
            PacketView::SpawnEntity {
                network_id: entity.0.0,
                prefab_wire_id: outgoing::prefab_wire_id(entity.1),
            },
    )
}

/// Number of component values in a list of snapshots.
pub open spec fn value_count(components: Seq<ComponentSnapshotView>) -> nat
    decreases components.len(),
{
    if components.len() == 0 {
        0
    } else {
        value_count(components.drop_last()) + components.last().values.len()
    }
}

/// The packets for the components, type by type, numbered from `next` on.
pub open spec fn update_all(components: Seq<ComponentSnapshotView>, next: u64) -> Seq<PacketView>
    decreases components.len(),
{
    if components.len() == 0 {
        Seq::empty()
    } else {
        let earlier = components.drop_last();
        update_all(earlier, next) + outgoing::component_updates(
            components.last().wire_id,
            components.last().values,
            replicated::id_after(next, value_count(earlier)),
        )
    }
}

/// The packets for the resources that there are.
pub open spec fn resource_packets(resources: Seq<ResourceSnapshotView>) -> Seq<PacketView> {
    resources.filter_map(
        |resource: ResourceSnapshotView|
            match resource.bytes {
                Some(bytes) => Some(
                    PacketView::UpdateResource { resource_wire_id: resource.wire_id, bytes },
                ),
                None => None,
            },
    )
}

impl SnapshotView {
    /// The packets that say what the snapshot holds: entities, then their
    /// components, then resources.
    pub open spec fn packets(self, next: u64) -> Seq<PacketView> {
        spawn_all(self.entities) + update_all(self.components, next) + resource_packets(
            self.resources,
        )
    }

    /// How many updates are numbered for the peers.
    pub open spec fn numbers_used(self, connections: Seq<ConnectionId>) -> nat
        decreases connections.len(),
    {
        if connections.len() == 0 {
            0
        } else {
            self.numbers_used(connections.drop_last()) + value_count(self.components)
        }
    }

    /// The snapshot sent to each of the peers in turn, each time with new
    /// numbers.
    pub open spec fn sends(
        self,
        connections: Seq<ConnectionId>,
        next: u64,
    ) -> Seq<TransmissionView>
        decreases connections.len(),
    {
        if connections.len() == 0 {
            Seq::empty()
        } else {
            let earlier = connections.drop_last();
            self.sends(earlier, next) + to_peer(
                self.packets(replicated::id_after(next, self.numbers_used(earlier))),
                connections.last(),
            )
        }
    }
}

/// Packets sent to one peer.
pub open spec fn to_peer(packets: Seq<PacketView>, connection: ConnectionId) -> Seq<
    TransmissionView,
> {
    packets.map_values(|packet: PacketView| netres::packet_send(packet, connection))
}

/// Takes the values of one component type on replicated entities.
pub fn snapshot_component<T: SyncComponent>(query: &Vec<(NetworkId, &T)>) -> (snapshot:
    ComponentSnapshot)
    ensures
        snapshot@.wire_id == netmsg::wire_id_of::<T>(),
        outgoing::encodes_all(query@, snapshot@.values),
{
    ComponentSnapshot { wire_id: T::wire_id(), values: outgoing::encode_components(query) }
}

/// Takes the value of one resource type, where there is one.
pub fn snapshot_resource<T: SyncResource>(resource: Option<&T>) -> (snapshot: ResourceSnapshot)
    ensures
        snapshot@.wire_id == netmsg::wire_id_of::<T>(),
        match (resource, snapshot@.bytes) {
            (Some(value), Some(bytes)) => netmsg::encodes_to(value, bytes),
            (None, None) => true,
            _ => false,
        },
{
    let bytes = match resource {
        Some(value) => {
            let bytes = value.encode();
            assert(netmsg::encodes_to(value, bytes@));
            Some(bytes)
        },
        None => None,
    };
    ResourceSnapshot { wire_id: T::wire_id(), bytes }
}

/// Appends the spawn packets for replicated entities.
fn push_spawns(entities: &Vec<(NetworkId, Option<PrefabId>)>, packets: &mut Vec<ReplicationPacket>)
    ensures
        netres::packet_views(final(packets)@) == netres::packet_views(old(packets)@) + spawn_all(
            entities@,
        ),
{
    let ghost start = netres::packet_views(packets@);
    let mut index: usize = 0;
    assert(start =~= start + spawn_all(entities@.take(0)));
    while index < entities.len()
        invariant
            index <= entities@.len(),
            netres::packet_views(packets@) == start + spawn_all(entities@.take(index as int)),
        decreases entities@.len() - index,
    {
        let ghost before = packets@;
        let (network_id, prefab) = entities[index];
        let prefab_wire_id: u64 = match prefab {
            Some(prefab) => prefab.0,
            None => 0,
        };
        let packet = ReplicationPacket::SpawnEntity { network_id: network_id.0, prefab_wire_id };
        packets.push(packet);
        assert(netres::packet_views(packets@) =~= netres::packet_views(before).push(packet@));
        assert(netres::packet_views(packets@) =~= start + spawn_all(entities@.take(index + 1)));
        index = index + 1;
    }
    assert(entities@.take(entities@.len() as int) =~= entities@);
}

/// Counting on from a number and then again is counting on by both.
proof fn lemma_count_on(next: u64, first: nat, second: nat)
    ensures
        replicated::id_after(replicated::id_after(next, first), second) == replicated::id_after(
            next,
            first + second,
        ),
{
}

/// Appends the packets for the components and numbers them.
fn push_components(
    components: &Vec<ComponentSnapshot>,
    sequence_state: &mut ComponentUpdateSequenceState,
    packets: &mut Vec<ReplicationPacket>,
)
    ensures
        ({
            let views = components@.map_values(|snapshot: ComponentSnapshot| snapshot@);
            &&& netres::packet_views(final(packets)@) == netres::packet_views(old(packets)@)
                + update_all(views, old(sequence_state)@.next_outgoing)
            &&& final(sequence_state)@ == old(sequence_state)@.issue(value_count(views))
        }),
{
    let ghost views = components@.map_values(|snapshot: ComponentSnapshot| snapshot@);
    let ghost start = netres::packet_views(packets@);
    let ghost next = sequence_state@.next_outgoing;
    let mut index: usize = 0;
    assert(views.take(0) =~= Seq::<ComponentSnapshotView>::empty());
    assert(start =~= start + update_all(views.take(0), next));
    while index < components.len()
        invariant
            index <= components@.len(),
            views == components@.map_values(|snapshot: ComponentSnapshot| snapshot@),
            next == old(sequence_state)@.next_outgoing,
            sequence_state@ == old(sequence_state)@.issue(value_count(views.take(index as int))),
            netres::packet_views(packets@) == start + update_all(views.take(index as int), next),
        decreases components@.len() - index,
    {
        let ghost before = packets@;
        let ghost done = views.take(index as int);
        let ghost more = views.take(index + 1);
        let snapshot = &components[index];
        let mut updates = outgoing::number_component_updates(
            sequence_state,
            snapshot.wire_id,
            &snapshot.values,
        );
        let ghost added = netres::packet_views(updates@);
        packets.append(&mut updates);
        proof {
            lemma_count_on(next, value_count(done), snapshot@.values.len());
        }
        assert(more.drop_last() =~= done);
        assert(more.last() == snapshot@);
        assert(netres::packet_views(packets@) =~= netres::packet_views(before) + added);
        assert(netres::packet_views(packets@) =~= start + update_all(more, next));
        index = index + 1;
    }
    assert(views.take(views.len() as int) =~= views);
}

/// Appends the packets for the resources that there are.
fn push_resources(resources: &Vec<ResourceSnapshot>, packets: &mut Vec<ReplicationPacket>)
    ensures
        netres::packet_views(final(packets)@) == netres::packet_views(old(packets)@)
            + resource_packets(resources@.map_values(|snapshot: ResourceSnapshot| snapshot@)),
{
    let ghost views = resources@.map_values(|snapshot: ResourceSnapshot| snapshot@);
    let ghost start = netres::packet_views(packets@);
    let mut index: usize = 0;
    proof {
        reveal(Seq::filter_map);
    }
    assert(start =~= start + resource_packets(views.take(0)));
    while index < resources.len()
        invariant
            index <= resources@.len(),
            views == resources@.map_values(|snapshot: ResourceSnapshot| snapshot@),
            netres::packet_views(packets@) == start + resource_packets(views.take(index as int)),
        decreases resources@.len() - index,
    {
        proof {
            reveal(Seq::filter_map);
        }
        let ghost before = packets@;
        let ghost more = views.take(index + 1);
        assert(more.drop_last() =~= views.take(index as int));
        assert(more.last() == resources@[index as int]@);
        let snapshot = &resources[index];
        if let Some(bytes) = &snapshot.bytes {
            let packet = ReplicationPacket::UpdateResource {
                resource_wire_id: snapshot.wire_id,
                bytes: bytes.clone(),
            };
            packets.push(packet);
            assert(netres::packet_views(packets@) =~= netres::packet_views(before).push(packet@));
        }
        assert(netres::packet_views(packets@) =~= start + resource_packets(more));
        index = index + 1;
    }
    assert(views.take(views.len() as int) =~= views);
}

/// Makes packets of a snapshot and numbers its component updates.
fn snapshot_packets(
    snapshot: &WorldSnapshot,
    sequence_state: &mut ComponentUpdateSequenceState,
) -> (packets: Vec<ReplicationPacket>)
    ensures
        netres::packet_views(packets@) == snapshot@.packets(old(sequence_state)@.next_outgoing),
        final(sequence_state)@ == old(sequence_state)@.issue(value_count(snapshot@.components)),
{
    let mut packets: Vec<ReplicationPacket> = Vec::new();
    let ghost start = netres::packet_views(packets@);
    push_spawns(&snapshot.entities, &mut packets);
    assert(start + spawn_all(snapshot@.entities) =~= spawn_all(snapshot@.entities));
    push_components(&snapshot.components, sequence_state, &mut packets);
    push_resources(&snapshot.resources, &mut packets);
    packets
}

/// Appends packets for one peer.
fn push_sends(
    net: &NetResource,
    connection: ConnectionId,
    packets: &Vec<ReplicationPacket>,
    sends: &mut Vec<Transmission>,
)
    ensures
        netres::transmission_views(final(sends)@) == netres::transmission_views(old(sends)@)
            + to_peer(netres::packet_views(packets@), connection),
{
    let ghost views = netres::packet_views(packets@);
    let ghost start = netres::transmission_views(sends@);
    let mut index: usize = 0;
    assert(start =~= start + to_peer(views.take(0), connection));
    while index < packets.len()
        invariant
            index <= packets@.len(),
            views == netres::packet_views(packets@),
            netres::transmission_views(sends@) == start + to_peer(
                views.take(index as int),
                connection,
            ),
        decreases packets@.len() - index,
    {
        let ghost before = sends@;
        let send = net.send_packet_to(connection, &packets[index]);
        sends.push(send);
        assert(netres::transmission_views(sends@) =~= netres::transmission_views(before).push(
            send@,
        ));
        assert(netres::transmission_views(sends@) =~= start + to_peer(
            views.take(index + 1),
            connection,
        ));
        index = index + 1;
    }
    assert(views.take(views.len() as int) =~= views);
}

impl<C, R, P> WorldView<C, R, P> {
    /// The state after all new peers were sent the snapshot.
    pub open spec fn after_snapshots(self, snapshot: SnapshotView) -> WorldView<C, R, P> {
        WorldView {
            net: NetView { new_connections: Seq::empty(), ..self.net },
            sequence: self.sequence.issue(snapshot.numbers_used(self.net.new_connections)),
            ..self
        }
    }
}

/// Sends the initial world state to newly connected clients.
pub fn sync_new_connections<C: Copy, R: Copy, P: Copy>(
    world: &mut ReplicationWorld<C, R, P>,
    snapshot: &WorldSnapshot,
) -> (sends: Vec<Transmission>)
    requires
        old(world).wf(),
    ensures
        final(world).wf(),
        if old(world)@.net.is_server == Some(true) {
            &&& netres::transmission_views(sends@) == snapshot@.sends(
                old(world)@.net.new_connections,
                old(world)@.sequence.next_outgoing,
            )
            &&& final(world)@ == old(world)@.after_snapshots(snapshot@)
        } else {
            sends@.len() == 0 && final(world)@ == old(world)@
        },
{
    let mut sends: Vec<Transmission> = Vec::new();
    if !world.net.is_server() {
        return sends;
    }
    let connections = world.net.drain_new_connections();
    let ghost peers = connections@;
    let ghost next = old(world)@.sequence.next_outgoing;
    let ghost quiet = NetView { new_connections: Seq::empty(), ..old(world)@.net };
    let mut index: usize = 0;
    assert(peers.take(0) =~= Seq::<ConnectionId>::empty());
    assert(netres::transmission_views(sends@) =~= snapshot@.sends(peers.take(0), next));
    while index < connections.len()
        invariant
            index <= connections@.len(),
            peers == connections@,
            next == old(world)@.sequence.next_outgoing,
            world.wf(),
            world@ == (WorldView {
                net: quiet,
                sequence: old(world)@.sequence.issue(
                    snapshot@.numbers_used(peers.take(index as int)),
                ),
                ..old(world)@
            }),
            netres::transmission_views(sends@) == snapshot@.sends(peers.take(index as int), next),
        decreases connections@.len() - index,
    {
        let ghost done = peers.take(index as int);
        let packets = snapshot_packets(snapshot, &mut world.sequence);
        push_sends(&world.net, connections[index], &packets, &mut sends);
        proof {
            lemma_count_on(next, snapshot@.numbers_used(done), value_count(snapshot@.components));
        }
        assert(peers.take(index + 1).drop_last() =~= done);
        index = index + 1;
    }
    assert(peers.take(peers.len() as int) =~= peers);
    sends
}

/// The packet for one component value of the snapshot.
pub open spec fn value_packet(
    components: Seq<ComponentSnapshotView>,
    next: u64,
    kind: int,
    value: int,
) -> PacketView {
    PacketView::UpdateComponent {
        network_id: components[kind].values[value].0.0,
        component_wire_id: components[kind].wire_id,
        sequence: replicated::id_after(
            next,
            value_count(components.take(kind)) + value as nat,
        ),
        bytes: components[kind].values[value].1,
    }
}

/// Whether the snapshot holds a component value at the place.
pub open spec fn has_value(
    components: Seq<ComponentSnapshotView>,
    kind: int,
    value: int,
) -> bool {
    0 <= kind < components.len() && 0 <= value < components[kind].values.len()
}

/// Where the packet for a component value stands.
proof fn lemma_place_value(
    components: Seq<ComponentSnapshotView>,
    next: u64,
    kind: int,
    value: int,
) -> (place: int)
    requires
        has_value(components, kind, value),
    ensures
        0 <= place < update_all(components, next).len(),
        update_all(components, next)[place] == value_packet(components, next, kind, value),
    decreases components.len(),
{
    let earlier = components.drop_last();
    if kind < earlier.len() {
        assert(earlier.take(kind) =~= components.take(kind));
        lemma_place_value(earlier, next, kind, value)
    } else {
        assert(components.take(kind) =~= earlier);
        lemma_count_on(next, value_count(earlier), value as nat);
        update_all(earlier, next).len() + value
    }
}

/// Which component value a packet is for.
proof fn lemma_find_value(
    components: Seq<ComponentSnapshotView>,
    next: u64,
    place: int,
) -> (found: (int, int))
    requires
        0 <= place < update_all(components, next).len(),
    ensures
        has_value(components, found.0, found.1),
        update_all(components, next)[place] == value_packet(components, next, found.0, found.1),
    decreases components.len(),
{
    let earlier = components.drop_last();
    let before = update_all(earlier, next).len() as int;
    if place < before {
        let found = lemma_find_value(earlier, next, place);
        assert(earlier.take(found.0) =~= components.take(found.0));
        found
    } else {
        let kind = earlier.len() as int;
        assert(components.take(kind) =~= earlier);
        lemma_count_on(next, value_count(earlier), (place - before) as nat);
        (kind, place - before)
    }
}

/// The packets for resources.
proof fn lemma_resource_packets(resources: Seq<ResourceSnapshotView>)
    ensures
        forall|i: int|
            0 <= i < resource_packets(resources).len() ==> (#[trigger] resource_packets(
                resources,
            )[i]) is UpdateResource,
        forall|i: int|
            0 <= i < resources.len() && (#[trigger] resources[i]).bytes is Some
                ==> resource_packets(resources).contains(
                PacketView::UpdateResource {
                    resource_wire_id: resources[i].wire_id,
                    bytes: resources[i].bytes->0,
                },
            ),
    decreases resources.len(),
{
    reveal(Seq::filter_map);
    if resources.len() > 0 {
        let rest = resources.drop_last();
        lemma_resource_packets(rest);
        assert forall|i: int| 0 <= i < resources.len() && (
        #[trigger] resources[i]).bytes is Some implies resource_packets(resources).contains(
            PacketView::UpdateResource {
                resource_wire_id: resources[i].wire_id,
                bytes: resources[i].bytes->0,
            },
        ) by {
            let packet = PacketView::UpdateResource {
                resource_wire_id: resources[i].wire_id,
                bytes: resources[i].bytes->0,
            };
            if i < rest.len() {
                assert(rest[i] == resources[i]);
                let place = resource_packets(rest).index_of(packet);
                assert(resource_packets(resources)[place] == packet);
            } else {
                assert(resource_packets(resources)[resource_packets(rest).len() as int] == packet);
            }
        }
    }
}

/// The snapshot's packets start with a spawn packet for each replicated
/// entity; each component value and each resource that there is follows.
pub proof fn law_snapshot_says_everything(snapshot: SnapshotView, next: u64)
    ensures
        forall|i: int|
            0 <= i < snapshot.entities.len() ==> (#[trigger] snapshot.packets(next)[i])
                == (PacketView::SpawnEntity {
                network_id: snapshot.entities[i].0.0,
                prefab_wire_id: outgoing::prefab_wire_id(snapshot.entities[i].1),
            }),
        forall|i: int|
            snapshot.entities.len() <= i < snapshot.packets(next).len() ==> !((
            #[trigger] snapshot.packets(next)[i]) is SpawnEntity),
        forall|kind: int, value: int|
            has_value(snapshot.components, kind, value) ==> snapshot.packets(next).contains(
                #[trigger] value_packet(snapshot.components, next, kind, value),
            ),
        forall|i: int|
            0 <= i < snapshot.resources.len() && (#[trigger] snapshot.resources[i]).bytes is Some
                ==> snapshot.packets(next).contains(
                PacketView::UpdateResource {
                    resource_wire_id: snapshot.resources[i].wire_id,
                    bytes: snapshot.resources[i].bytes->0,
                },
            ),
{
    let packets = snapshot.packets(next);
    let spawned = spawn_all(snapshot.entities);
    let updated = update_all(snapshot.components, next);
    let rest = resource_packets(snapshot.resources);
    lemma_resource_packets(snapshot.resources);
    assert forall|i: int| snapshot.entities.len() <= i < packets.len() implies !((
    #[trigger] packets[i]) is SpawnEntity) by {
        let j = i - spawned.len();
        if j < updated.len() {
            let found = lemma_find_value(snapshot.components, next, j);
            assert(packets[i] == updated[j]);
        } else {
            assert(packets[i] == rest[j - updated.len()]);
        }
    }
    assert forall|kind: int, value: int|
        has_value(snapshot.components, kind, value) implies packets.contains(
        #[trigger] value_packet(snapshot.components, next, kind, value),
    ) by {
        let place = lemma_place_value(snapshot.components, next, kind, value);
        assert(packets[spawned.len() + place] == updated[place]);
    }
    assert forall|i: int| 0 <= i < snapshot.resources.len() && (
    #[trigger] snapshot.resources[i]).bytes is Some implies packets.contains(
        PacketView::UpdateResource {
            resource_wire_id: snapshot.resources[i].wire_id,
            bytes: snapshot.resources[i].bytes->0,
        },
    ) by {
        let packet = PacketView::UpdateResource {
            resource_wire_id: snapshot.resources[i].wire_id,
            bytes: snapshot.resources[i].bytes->0,
        };
        let place = rest.index_of(packet);
        assert(packets[spawned.len() + updated.len() + place] == packet);
    }
}

/// Each new peer is sent all packets of the snapshot, in order and in one go.
pub proof fn law_every_new_client_gets_the_snapshot(
    snapshot: SnapshotView,
    connections: Seq<ConnectionId>,
    next: u64,
    peer: int,
) -> (place: int)
    requires
        0 <= peer < connections.len(),
    ensures
        ({
            let numbered = snapshot.packets(
                replicated::id_after(next, snapshot.numbers_used(connections.take(peer))),
            );
            &&& 0 <= place <= snapshot.sends(connections, next).len() - numbered.len()
            &&& snapshot.sends(connections, next).subrange(place, place + numbered.len())
                == to_peer(numbered, connections[peer])
        }),
    decreases connections.len(),
{
    let earlier = connections.drop_last();
    let before = snapshot.sends(earlier, next);
    let numbered = snapshot.packets(
        replicated::id_after(next, snapshot.numbers_used(connections.take(peer))),
    );
    if peer < earlier.len() {
        assert(earlier.take(peer) =~= connections.take(peer));
        let place = law_every_new_client_gets_the_snapshot(snapshot, earlier, next, peer);
        assert(snapshot.sends(connections, next).subrange(place, place + numbered.len())
            =~= before.subrange(place, place + numbered.len()));
        place
    } else {
        assert(connections.take(peer) =~= earlier);
        let place = before.len() as int;
        assert(snapshot.sends(connections, next).subrange(place, place + numbered.len())
            =~= to_peer(numbered, connections[peer]));
        place
    }
}

/// The spawn packets of a snapshot are those for its entities.
proof fn lemma_snapshot_spawns(snapshot: SnapshotView, next: u64)
    ensures
        incoming::of_phase(snapshot.packets(next), 0) == spawn_all(snapshot.entities),
{
    let packets = snapshot.packets(next);
    let spawned = spawn_all(snapshot.entities);
    let rest = packets.skip(spawned.len() as int);
    let is_spawn = |packet: PacketView| incoming::phase(packet) == 0;
    law_snapshot_says_everything(snapshot, next);
    assert(packets =~= spawned + rest);
    Seq::filter_distributes_over_add(spawned, rest, is_spawn);
    lists::lemma_filter_extremes(spawned, is_spawn);
    assert forall|i: int| 0 <= i < rest.len() implies !is_spawn(#[trigger] rest[i]) by {
        assert(rest[i] == packets[spawned.len() + i]);
    }
    lists::lemma_filter_extremes(rest, is_spawn);
    assert(spawned + Seq::<PacketView>::empty() =~= spawned);
}

/// Whether no other place of the snapshot holds a value of the same component
/// on the same entity.
pub open spec fn only_value(
    components: Seq<ComponentSnapshotView>,
    kind: int,
    value: int,
) -> bool {
    forall|other_kind: int, other: int|
        #![trigger components[other_kind].values[other]]
        has_value(components, other_kind, other) && components[other_kind].wire_id
            == components[kind].wire_id && components[other_kind].values[other].0
            == components[kind].values[value].0 ==> other_kind == kind && other == value
}

/// The packet for the only value of its component on its entity is the newest
/// of its stream.
proof fn lemma_value_is_newest(snapshot: SnapshotView, next: u64, kind: int, value: int)
    requires
        has_value(snapshot.components, kind, value),
        only_value(snapshot.components, kind, value),
    ensures
        delivery::is_newest(
            snapshot.packets(next),
            (
                snapshot.components[kind].values[value].0.0,
                snapshot.components[kind].wire_id,
            ),
            value_packet(snapshot.components, next, kind, value)->UpdateComponent_sequence,
            snapshot.components[kind].values[value].1,
        ),
{
    let packets = snapshot.packets(next);
    let spawned = spawn_all(snapshot.entities);
    let updated = update_all(snapshot.components, next);
    let packet = value_packet(snapshot.components, next, kind, value);
    let id = snapshot.components[kind].values[value].0;
    let stream = (id.0, snapshot.components[kind].wire_id);
    let bytes = snapshot.components[kind].values[value].1;
    law_snapshot_says_everything(snapshot, next);
    lemma_resource_packets(snapshot.resources);
    assert forall|i: int| 0 <= i < packets.len() && delivery::of_stream(
        #[trigger] packets[i],
        stream,
    ) implies packets[i] == packet by {
        let place = i - spawned.len();
        if i < spawned.len() {
            assert(packets[i] == spawned[i]);
        } else if place < updated.len() {
            let found = lemma_find_value(snapshot.components, next, place);
            assert(packets[i] == updated[place]);
            let other = snapshot.components[found.0].values[found.1];
            assert(other.0.0 == id.0);
        } else {
            assert(packets[i] == resource_packets(snapshot.resources)[place - updated.len()]);
        }
    }
    assert(packet == delivery::update(stream, packet->UpdateComponent_sequence, bytes));
}

/// The entities of a snapshot are spawned cleanly on a client that has none.
proof fn lemma_snapshot_is_clean(
    entities: Seq<(NetworkId, Option<PrefabId>)>,
    fresh: Seq<Entity>,
)
    requires
        entities.len() <= fresh.len(),
        fresh.no_duplicates(),
        forall|i: int, j: int|
            0 <= i < j < entities.len() ==> (#[trigger] entities[i]).0 != (
            #[trigger] entities[j]).0,
    ensures
        delivery::clean_spawns(IndexView::empty(), spawn_all(entities), fresh),
{
    let spawned = spawn_all(entities);
    assert forall|i: int, j: int| 0 <= i < j < spawned.len() implies (
    #[trigger] spawned[i])->SpawnEntity_network_id != (
    #[trigger] spawned[j])->SpawnEntity_network_id by {
        let first = entities[i].0;
        let second = entities[j].0;
        assert(first != second);
    }
}

/// A client that receives the snapshot spawns each of its entities, with the
/// prefab where the client knows it, and finds it under its network ID.
pub proof fn law_client_spawns_the_snapshot<C, R, P>(
    client: WorldView<C, R, P>,
    fresh: Seq<Entity>,
    snapshot: SnapshotView,
    next: u64,
    entity: int,
)
    requires
        client.index == IndexView::empty(),
        client.pending.len() == 0,
        client.net.inbox == snapshot.packets(next),
        snapshot.entities.len() <= fresh.len(),
        fresh.no_duplicates(),
        forall|i: int, j: int|
            0 <= i < j < snapshot.entities.len() ==> (#[trigger] snapshot.entities[i]).0 != (
            #[trigger] snapshot.entities[j]).0,
        0 <= entity < snapshot.entities.len(),
    ensures
        entity < client.handled(fresh).commands.len(),
        client.handled(fresh).commands[entity] == (incoming::CommandView::Spawn {
            entity: fresh[entity],
            network_id: snapshot.entities[entity].0,
            prefab: incoming::known_prefab(
                client.prefabs,
                outgoing::prefab_wire_id(snapshot.entities[entity].1),
            ),
        }),
        client.after_incoming(fresh).index.entity(snapshot.entities[entity].0) == Some(
            fresh[entity],
        ),
        client.after_spawns(fresh).index.entity(snapshot.entities[entity].0) == Some(
            fresh[entity],
        ),
        client.after_spawns(fresh).index.consistent(),
{
    let packets = snapshot.packets(next);
    let spawned = spawn_all(snapshot.entities);
    let id = snapshot.entities[entity].0;
    assert(client.incoming() =~= packets);
    lemma_snapshot_spawns(snapshot, next);
    lemma_snapshot_is_clean(snapshot.entities, fresh);
    delivery::law_frame_keeps_index_consistent(client, fresh);
    delivery::law_spawns_come_first(client, fresh, entity);
    assert(spawned[entity]->SpawnEntity_network_id == id.0);
    assert(NetworkId(id.0) == id);
    lemma_no_despawns(snapshot, next, id.0);
    delivery::law_despawns_remove_what_they_name(client, fresh, id.0, fresh[entity]);
}

/// A snapshot despawns nothing.
proof fn lemma_no_despawns(snapshot: SnapshotView, next: u64, network_id: u64)
    ensures
        !snapshot.packets(next).contains(PacketView::DespawnEntity { network_id }),
{
    let packets = snapshot.packets(next);
    let spawned = spawn_all(snapshot.entities);
    let updated = update_all(snapshot.components, next);
    let despawn = PacketView::DespawnEntity { network_id };
    if packets.contains(despawn) {
        let i = packets.index_of(despawn);
        let place = i - spawned.len();
        lemma_resource_packets(snapshot.resources);
        if i < spawned.len() {
            assert(packets[i] == spawned[i]);
        } else if place < updated.len() {
            let found = lemma_find_value(snapshot.components, next, place);
            assert(packets[i] == updated[place]);
        } else {
            assert(packets[i] == resource_packets(snapshot.resources)[place - updated.len()]);
        }
    }
}

/// A client that receives the snapshot applies each component value whose type
/// it knows to the entity that it spawned, and no other value of that type
/// after it.
pub proof fn law_client_rebuilds_the_snapshot<C, R, P>(
    client: WorldView<C, R, P>,
    fresh: Seq<Entity>,
    snapshot: SnapshotView,
    next: u64,
    kind: int,
    value: int,
    entity: int,
)
    requires
        client.index == IndexView::empty(),
        client.sequence.latest_incoming == Map::<(u64, u64), u64>::empty(),
        client.pending.len() == 0,
        client.net.inbox == snapshot.packets(next),
        snapshot.entities.len() <= fresh.len(),
        fresh.no_duplicates(),
        forall|i: int, j: int|
            0 <= i < j < snapshot.entities.len() ==> (#[trigger] snapshot.entities[i]).0 != (
            #[trigger] snapshot.entities[j]).0,
        has_value(snapshot.components, kind, value),
        only_value(snapshot.components, kind, value),
        0 <= entity < snapshot.entities.len(),
        snapshot.entities[entity].0 == snapshot.components[kind].values[value].0,
        client.components.lookup(snapshot.components[kind].wire_id) is Some,
    ensures
        delivery::applied_last(
            client.handled(fresh).commands,
            fresh[entity],
            (
                snapshot.components[kind].values[value].0.0,
                snapshot.components[kind].wire_id,
            ),
            snapshot.components[kind].values[value].1,
        ),
{
    let id = snapshot.components[kind].values[value].0;
    let stream = (id.0, snapshot.components[kind].wire_id);
    let number = value_packet(snapshot.components, next, kind, value)->UpdateComponent_sequence;
    let bytes = snapshot.components[kind].values[value].1;
    assert(client.incoming() =~= snapshot.packets(next));
    law_client_spawns_the_snapshot(client, fresh, snapshot, next, entity);
    lemma_value_is_newest(snapshot, next, kind, value);
    assert(NetworkId(stream.0) == id);
    delivery::law_newest_update_is_applied_last(
        client,
        fresh,
        stream,
        number,
        bytes,
        fresh[entity],
    );
}

/// One more new peer adds exactly the packets of the snapshot: in order, each to
/// that peer, on the replication channel, as the bytes of the packet, reliably
/// unless it is a component update. Without new peers nothing is sent.
pub proof fn law_each_new_peer_is_sent_the_packets(
    snapshot: SnapshotView,
    connections: Seq<ConnectionId>,
    connection: ConnectionId,
    next: u64,
)
    ensures
        ({
            let count = connections.len() * value_count(snapshot.components);
            let numbered = snapshot.packets(
                if next + count <= u64::MAX {
                    (next + count) as u64
                } else {
                    u64::MAX
                },
            );
            let before = snapshot.sends(connections, next);
            let after = snapshot.sends(connections.push(connection), next);
            &&& snapshot.sends(Seq::empty(), next).len() == 0
            &&& after.len() == before.len() + numbered.len()
            &&& forall|i: int| 0 <= i < before.len() ==> #[trigger] after[i] == before[i]
            &&& forall|i: int|
                0 <= i < numbered.len() ==> {
                    let send = #[trigger] after[before.len() + i];
                    &&& send.connection == connection
                    &&& send.channel == netres::Channel::Replication
                    &&& send.payload == wire::packet_bytes(numbered[i])
                    &&& send.reliable == !(numbered[i] is UpdateComponent)
                }
        }),
{
    lemma_numbers_used(snapshot, connections);
    assert(connections.push(connection).drop_last() =~= connections);
}

/// Each new peer uses as many numbers as there are component values.
proof fn lemma_numbers_used(snapshot: SnapshotView, connections: Seq<ConnectionId>)
    ensures
        snapshot.numbers_used(connections) == connections.len() * value_count(snapshot.components),
    decreases connections.len(),
{
    let count = value_count(snapshot.components) as int;
    if connections.len() > 0 {
        let earlier = connections.len() - 1;
        lemma_numbers_used(snapshot, connections.drop_last());
        assert((earlier + 1) * count == earlier * count + count) by (nonlinear_arith);
    } else {
        assert(0 * count == 0) by (nonlinear_arith);
    }
}

/// A new peer that hands the payloads of its transmissions to the replication
/// receiver reads the snapshot's packets from them, in order.
pub proof fn law_new_peers_read_the_packets(
    snapshot: SnapshotView,
    connections: Seq<ConnectionId>,
    connection: ConnectionId,
    next: u64,
    i: int,
)
    requires
        ({
            let count = connections.len() * value_count(snapshot.components);
            let numbered = snapshot.packets(replicated::id_after(next, count));
            &&& 0 <= i < numbered.len()
            &&& wire::packet_payload(numbered[i]).len() <= usize::MAX
        }),
    ensures
        ({
            let count = connections.len() * value_count(snapshot.components);
            let numbered = snapshot.packets(replicated::id_after(next, count));
            let place = snapshot.sends(connections, next).len() + i;
            let send = snapshot.sends(connections.push(connection), next)[place];
            &&& send.connection == connection
            &&& send.channel == netres::Channel::Replication
            &&& wire::read_packet(send.payload) == Ok::<PacketView, wire::WireError>(numbered[i])
        }),
{
    let count = connections.len() * value_count(snapshot.components);
    let numbered = snapshot.packets(replicated::id_after(next, count));
    let before = snapshot.sends(connections, next);
    law_each_new_peer_is_sent_the_packets(snapshot, connections, connection, next);
    netres::law_sent_packet_is_received(numbered[i], connection);
    assert(snapshot.sends(connections.push(connection), next)[before.len() + i].connection
        == connection);
}

/// The packets of a snapshot are one spawn packet for each entity, with its
/// prefab or zero, then those for the components, then those for the resources.
pub proof fn law_snapshot_packets_stand_in_order(snapshot: SnapshotView, next: u64)
    ensures
        snapshot.packets(next) == Seq::new(
            snapshot.entities.len(),
            |i: int|
                PacketView::SpawnEntity {
                    network_id: snapshot.entities[i].0.0,
                    prefab_wire_id: match snapshot.entities[i].1 {
                        Some(prefab) => prefab.0,
                        None => 0,
                    },
                },
        ) + update_all(snapshot.components, next) + resource_packets(snapshot.resources),
{
    assert(spawn_all(snapshot.entities) =~= Seq::new(
        snapshot.entities.len(),
        |i: int|
            PacketView::SpawnEntity {
                network_id: snapshot.entities[i].0.0,
                prefab_wire_id: match snapshot.entities[i].1 {
                    Some(prefab) => prefab.0,
                    None => 0,
                },
            },
    ));
}

/// One more component type in a snapshot adds one packet for each of its values,
/// under the value's own network ID, with the next numbers up to the highest.
pub proof fn law_component_snapshots_add_their_values(
    components: Seq<ComponentSnapshotView>,
    component: ComponentSnapshotView,
    next: u64,
)
    ensures
        ({
            let first = next + value_count(components);
            value_count(Seq::<ComponentSnapshotView>::empty()) == 0 && update_all(
                Seq::empty(),
                next,
            ).len() == 0 && value_count(components.push(component)) == value_count(components)
                + component.values.len() && update_all(components.push(component), next)
                == update_all(components, next) + Seq::new(
                component.values.len(),
                |i: int|
                    PacketView::UpdateComponent {
                        network_id: component.values[i].0.0,
                        component_wire_id: component.wire_id,
                        sequence: if first + i <= u64::MAX {
                            (first + i) as u64
                        } else {
                            u64::MAX
                        },
                        bytes: component.values[i].1,
                    },
            )
        }),
{
    let first = next + value_count(components);
    assert(components.push(component).drop_last() =~= components);
    assert(outgoing::component_updates(
        component.wire_id,
        component.values,
        replicated::id_after(next, value_count(components)),
    ) =~= Seq::new(
        component.values.len(),
        |i: int|
            PacketView::UpdateComponent {
                network_id: component.values[i].0.0,
                component_wire_id: component.wire_id,
                sequence: if first + i <= u64::MAX {
                    (first + i) as u64
                } else {
                    u64::MAX
                },
                bytes: component.values[i].1,
            },
    ));
}

/// One more resource type in a snapshot adds one packet with its value, or none
/// where it has none.
pub proof fn law_resource_snapshots_add_their_value(
    resources: Seq<ResourceSnapshotView>,
    resource: ResourceSnapshotView,
)
    ensures
        resource_packets(Seq::empty()).len() == 0,
        resource_packets(resources.push(resource)) == match resource.bytes {
            Some(bytes) => resource_packets(resources).push(
                PacketView::UpdateResource { resource_wire_id: resource.wire_id, bytes },
            ),
            None => resource_packets(resources),
        },
{
    reveal(Seq::filter_map);
    assert(resources.push(resource).drop_last() =~= resources);
    assert(resource_packets(resources.push(resource)) =~= match resource.bytes {
        Some(bytes) => resource_packets(resources).push(
            PacketView::UpdateResource { resource_wire_id: resource.wire_id, bytes },
        ),
        None => resource_packets(resources),
    });
}

/// Sending snapshots leaves no new peers and moves the next number on by one for
/// each component value and peer; nothing else changes.
pub proof fn law_snapshots_leave_no_new_peers<C, R, P>(
    world: WorldView<C, R, P>,
    snapshot: SnapshotView,
)
    ensures
        ({
            let after = world.after_snapshots(snapshot);
            let count = world.net.new_connections.len() * value_count(snapshot.components);
            &&& after.net == (NetView { new_connections: Seq::empty(), ..world.net })
            &&& after.sequence.latest_incoming == world.sequence.latest_incoming
            &&& world.sequence.next_outgoing + count <= u64::MAX
                ==> after.sequence.next_outgoing as int == world.sequence.next_outgoing + count
            &&& world.sequence.next_outgoing + count > u64::MAX ==> after.sequence.next_outgoing
                == u64::MAX
            &&& (WorldView { net: world.net, sequence: world.sequence, ..after }) == world
        }),
{
    lemma_numbers_used(snapshot, world.net.new_connections);
    assert((WorldView {
        net: world.net,
        sequence: world.sequence,
        ..world.after_snapshots(snapshot)
    }) =~= world);
}

/// A snapshot says what its fields hold.
pub proof fn law_snapshots_say_what_they_hold(
    snapshot: WorldSnapshot,
    component: ComponentSnapshot,
    resource: ResourceSnapshot,
)
    ensures
        snapshot@.entities == snapshot.entities@,
        snapshot@.components.len() == snapshot.components@.len(),
        snapshot@.resources.len() == snapshot.resources@.len(),
        forall|i: int|
            0 <= i < snapshot.components@.len() ==> #[trigger] snapshot@.components[i]
                == snapshot.components@[i]@,
        forall|i: int|
            0 <= i < snapshot.resources@.len() ==> #[trigger] snapshot@.resources[i]
                == snapshot.resources@[i]@,
        component@.wire_id == component.wire_id,
        component@.values.len() == component.values@.len(),
        forall|i: int|
            0 <= i < component.values@.len() ==> (#[trigger] component@.values[i]).0
                == component.values@[i].0 && component@.values[i].1 == component.values@[i].1@,
        resource@.wire_id == resource.wire_id,
        resource.bytes is None ==> resource@.bytes is None,
        resource.bytes is Some ==> resource@.bytes == Some(resource.bytes->0@),
{
}

} // verus!
