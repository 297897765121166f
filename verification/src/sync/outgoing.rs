//! Packets that a server queues for its clients.
use vstd::prelude::*;

use crate::netmsg;
use crate::netmsg::WireType;
use crate::netres;
use crate::netres::{NetResource, NetView, PacketView, ReplicationPacket, Transmission};
use crate::replicated;
use crate::replicated::{Entity, EntityIndex, IndexView, NetworkId};
use crate::sync::registry::PrefabRegistration;
use crate::sync::sequence::{ComponentUpdateSequenceState, SequenceView};
use crate::sync::world::{ReplicationWorld, WorldView};

verus! {

/// Implemented by syncable component types.
pub trait SyncComponent: WireType {

}

/// Identifies the prefab that should be applied to an entity.
#[derive(Clone, Copy, Debug, PartialEq, Eq, Structural)]
pub struct PrefabId(pub u64);

/// Poll hook run before the main replication systems.
pub fn poll_network_incoming(net: &mut NetResource)
    ensures
        final(net)@ == old(net)@,
{
    net.poll_incoming();
}

/// Flushes queued packets after the frame has finished mutating state.
pub fn flush_network_outbox(net: &mut NetResource) -> (sends: Vec<Transmission>)
    ensures
        netres::transmission_views(sends@) == old(net)@.flush_sends(),
        final(net)@ == old(net)@.flushed(),
{
    net.flush_outbox()
}

/// Serialised values of one component type, each with the network ID of its
/// entity.
pub open spec fn update_views(updates: Seq<(NetworkId, Vec<u8>)>) -> Seq<(NetworkId, Seq<u8>)> {
    updates.map_values(|update: (NetworkId, Vec<u8>)| (update.0, update.1@))
}

/// The packets that update components of one type, numbered from `next` on.
pub open spec fn component_updates(
    wire_id: u64,
    updates: Seq<(NetworkId, Seq<u8>)>,
    next: u64,
) -> Seq<PacketView> {
    Seq::new(
        updates.len(),
        |i: int|
            PacketView::UpdateComponent {
                network_id: updates[i].0.0,
                component_wire_id: wire_id,
                sequence: replicated::id_after(next, i as nat),
                bytes: updates[i].1,
            },
    )
}

/// Numbers serialised values of one component type and makes packets of them.
pub fn number_component_updates(
    sequence_state: &mut ComponentUpdateSequenceState,
    wire_id: u64,
    updates: &Vec<(NetworkId, Vec<u8>)>,
) -> (packets: Vec<ReplicationPacket>)
    ensures
        netres::packet_views(packets@) == component_updates(
            wire_id,
            update_views(updates@),
            old(sequence_state)@.next_outgoing,
        ),
        final(sequence_state)@ == old(sequence_state)@.issue(updates@.len()),
{
    let ghost views = update_views(updates@);
    let ghost next = sequence_state@.next_outgoing;
    let mut packets: Vec<ReplicationPacket> = Vec::new();
    let mut index: usize = 0;
    assert(netres::packet_views(packets@) =~= component_updates(wire_id, views.take(0), next));
    while index < updates.len()
        invariant
            index <= updates@.len(),
            views == update_views(updates@),
            next == old(sequence_state)@.next_outgoing,
            sequence_state@ == old(sequence_state)@.issue(index as nat),
            netres::packet_views(packets@) == component_updates(
                wire_id,
                views.take(index as int),
                next,
            ),
        decreases updates@.len() - index,
    {
        let ghost before = packets@;
        let packet = ReplicationPacket::UpdateComponent {
            network_id: updates[index].0.0,
            component_wire_id: wire_id,
            sequence: sequence_state.next_outgoing(),
            bytes: updates[index].1.clone(),
        };
        packets.push(packet);
        assert(netres::packet_views(packets@) =~= netres::packet_views(before).push(packet@));
        assert(packet@->UpdateComponent_bytes == views[index as int].1);
        assert(netres::packet_views(packets@) =~= component_updates(
            wire_id,
            views.take(index + 1),
            next,
        ));
        index = index + 1;
    }
    assert(views.take(views.len() as int) =~= views);
    packets
}

/// Queues packets in order.
fn queue_all(net: &mut NetResource, packets: Vec<ReplicationPacket>)
    ensures
        final(net)@ == (NetView {
            outbox: old(net)@.outbox + netres::packet_views(packets@),
            ..old(net)@
        }),
{
    let ghost views = netres::packet_views(packets@);
    assert(net@.outbox =~= net@.outbox + views.take(0));
    for packet in iter: packets
        invariant
            iter.seq() == packets@,
            views == netres::packet_views(packets@),
            net@ == (NetView {
                outbox: old(net)@.outbox + views.take(iter.index() as int),
                ..old(net)@
            }),
    {
        let ghost done = iter.index() as int;
        net.queue_packet(packet);
        assert(old(net)@.outbox + views.take(done + 1) =~= (old(net)@.outbox + views.take(
            done,
        )).push(views[done]));
    }
    assert(views.take(views.len() as int) =~= views);
}

/// Whether `updates` can be the serialised forms of the values of `query`.
pub open spec fn encodes_all<T: WireType>(
    query: Seq<(NetworkId, &T)>,
    updates: Seq<(NetworkId, Seq<u8>)>,
) -> bool {
    &&& updates.len() == query.len()
    &&& forall|i: int|
        0 <= i < query.len() ==> (#[trigger] updates[i]).0 == query[i].0 && netmsg::encodes_to(
            query[i].1,
            updates[i].1,
        )
}

/// Serialises the values of a query.
pub fn encode_components<T: WireType>(query: &Vec<(NetworkId, &T)>) -> (updates: Vec<
    (NetworkId, Vec<u8>),
>)
    ensures
        encodes_all(query@, update_views(updates@)),
{
    let mut updates: Vec<(NetworkId, Vec<u8>)> = Vec::new();
    let mut index: usize = 0;
    while index < query.len()
        invariant
            index <= query@.len(),
            encodes_all(query@.take(index as int), update_views(updates@)),
        decreases query@.len() - index,
    {
        let ghost before = update_views(updates@);
        let (network_id, component) = query[index];
        let bytes = component.encode();
        assert(netmsg::encodes_to(query@[index as int].1, bytes@));
        updates.push((network_id, bytes));
        assert(update_views(updates@) =~= before.push((network_id, bytes@)));
        index = index + 1;
        assert forall|i: int| 0 <= i < index implies (#[trigger] update_views(updates@)[i]).0
            == query@.take(index as int)[i].0 && netmsg::encodes_to(
            query@.take(index as int)[i].1,
            update_views(updates@)[i].1,
        ) by {
            if i < index - 1 {
                assert(update_views(updates@)[i] == before[i]);
                assert(query@.take(index - 1)[i] == query@[i]);
            }
        }
    }
    assert(query@.take(query@.len() as int) =~= query@);
    updates
}

/// Whether a server may come from one state to the other by sending the
/// components of a query.
pub open spec fn syncs_components<T: WireType>(
    query: Seq<(NetworkId, &T)>,
    before: (NetView, SequenceView),
    after: (NetView, SequenceView),
) -> bool {
    exists|updates: Seq<(NetworkId, Seq<u8>)>|
        {
            &&& #[trigger] encodes_all(query, updates)
            &&& after.0 == NetView {
                outbox: before.0.outbox + component_updates(
                    netmsg::wire_id_of::<T>(),
                    updates,
                    before.1.next_outgoing,
                ),
                ..before.0
            }
            &&& after.1 == before.1.issue(query.len())
        }
}

/// Sends updated sync components for entities that are added or changed.
/// `query` holds those components, each with the network ID of its entity.
pub fn sync_component<T: SyncComponent>(
    net: &mut NetResource,
    sequence_state: &mut ComponentUpdateSequenceState,
    query: &Vec<(NetworkId, &T)>,
)
    ensures
        if old(net)@.is_server == Some(true) {
            syncs_components(
                query@,
                (old(net)@, old(sequence_state)@),
                (final(net)@, final(sequence_state)@),
            )
        } else {
            final(net)@ == old(net)@ && final(sequence_state)@ == old(sequence_state)@
        },
{
    if !net.is_server() {
        return;
    }
    let updates = encode_components(query);
    let ghost views = update_views(updates@);
    let packets = number_component_updates(sequence_state, T::wire_id(), &updates);
    queue_all(net, packets);
    assert(encodes_all(query@, views));
}

/// The ID that the i-th of the entities gets.
pub open spec fn assigned_id(next: u64, i: int) -> NetworkId {
    NetworkId(replicated::id_after(next, i as nat))
}

/// The wire identifier that announces a prefab: zero for none.
pub open spec fn prefab_wire_id(prefab: Option<PrefabId>) -> u64 {
    match prefab {
        Some(prefab) => prefab.0,
        None => 0,
    }
}

/// The spawn packets for newly replicated entities.
pub open spec fn spawn_packets(
    entities: Seq<(Entity, Option<PrefabId>)>,
    next: u64,
) -> Seq<PacketView> {
    Seq::new(
        entities.len(),
        |i: int|
            PacketView::SpawnEntity {
                network_id: assigned_id(next, i).0,
                prefab_wire_id: prefab_wire_id(entities[i].1),
            },
    )
}

/// The index after newly replicated entities were stored.
pub open spec fn index_assigned(
    index: IndexView,
    entities: Seq<(Entity, Option<PrefabId>)>,
    next: u64,
) -> IndexView
    decreases entities.len(),
{
    if entities.len() == 0 {
        index
    } else {
        index_assigned(index, entities.drop_last(), next).insert(
            assigned_id(next, entities.len() - 1),
            entities.last().0,
        )
    }
}

impl<C, R, P> WorldView<C, R, P> {
    /// The state after newly replicated entities got their network IDs.
    pub open spec fn after_assignment(
        self,
        entities: Seq<(Entity, Option<PrefabId>)>,
    ) -> WorldView<C, R, P> {
        WorldView {
            net: NetView {
                outbox: self.net.outbox + spawn_packets(entities, self.next_network_id),
                ..self.net
            },
            next_network_id: replicated::id_after(self.next_network_id, entities.len()),
            index: index_assigned(self.index, entities, self.next_network_id),
            ..self
        }
    }

    /// Whether all IDs in use are below the next one to give out.
    pub open spec fn ids_below_next(self) -> bool {
        forall|id: NetworkId| #[trigger]
            self.index.by_network.dom().contains(id) ==> id.0 < self.next_network_id
    }
}

/// Assigns network IDs to newly replicated entities on the server.
///
/// `entities` holds them with their prefabs. Returns the entities with the
/// IDs to mark them with.
pub fn assign_network_ids<C: Copy, R: Copy, P: Copy>(
    world: &mut ReplicationWorld<C, R, P>,
    entities: &Vec<(Entity, Option<PrefabId>)>,
) -> (assigned: Vec<(Entity, NetworkId)>)
    requires
        old(world).wf(),
    ensures
        final(world).wf(),
        if old(world)@.net.is_server == Some(true) {
            &&& final(world)@ == old(world)@.after_assignment(entities@)
            &&& assigned@ == Seq::new(
                entities@.len(),
                |i: int| (entities@[i].0, assigned_id(old(world)@.next_network_id, i)),
            )
        } else {
            final(world)@ == old(world)@ && assigned@.len() == 0
        },
{
    let mut assigned: Vec<(Entity, NetworkId)> = Vec::new();
    if !world.net.is_server() {
        return assigned;
    }
    let ghost next = world@.next_network_id;
    let ghost start = world@;
    let mut index: usize = 0;
    assert(world@ =~= start.after_assignment(entities@.take(0)));
    while index < entities.len()
        invariant
            index <= entities@.len(),
            next == start.next_network_id,
            start == old(world)@,
            world.wf(),
            world@ == start.after_assignment(entities@.take(index as int)),
            assigned@ == Seq::new(
                index as nat,
                |i: int| (entities@[i].0, assigned_id(next, i)),
            ),
        decreases entities@.len() - index,
    {
        let ghost done = entities@.take(index as int);
        let ghost more = entities@.take(index + 1);
        let ghost before = world@;
        let (entity, prefab) = entities[index];
        let network_id = world.next_network_id.take();
        world.index.insert(network_id, entity);
        let prefab_wire_id: u64 = match prefab {
            Some(prefab) => prefab.0,
            None => 0,
        };
        world.net.queue_packet(
            ReplicationPacket::SpawnEntity { network_id: network_id.0, prefab_wire_id },
        );
        assigned.push((entity, network_id));
        assert(more.drop_last() =~= done);
        assert(spawn_packets(more, next) =~= spawn_packets(done, next).push(
            PacketView::SpawnEntity { network_id: network_id.0, prefab_wire_id },
        ));
        assert(start.after_assignment(more).net.outbox =~= before.net.outbox.push(
            PacketView::SpawnEntity { network_id: network_id.0, prefab_wire_id },
        ));
        assert(world@ =~= start.after_assignment(more));
        index = index + 1;
    }
    assert(entities@.take(entities@.len() as int) =~= entities@);
    assigned
}

/// A newly replicated entity and the registered prefabs that it looks like.
#[derive(Debug)]
pub struct PrefabCandidate {
    pub entity: Entity,
    /// The prefab that the entity is tagged with already.
    pub prefab: Option<PrefabId>,
    /// For each registered prefab in turn, whether the entity looks like it.
    pub matches: Vec<bool>,
}

/// The first registration that the entity looks like.
pub open spec fn first_match<P>(
    matches: Seq<bool>,
    registrations: Seq<PrefabRegistration<P>>,
) -> Option<PrefabId>
    decreases matches.len(),
{
    if matches.len() == 0 || registrations.len() == 0 {
        None
    } else if matches[0] {
        Some(PrefabId(registrations[0].wire_id))
    } else {
        first_match(matches.skip(1), registrations.skip(1))
    }
}

/// The tag that an entity gets: none where it has one or looks like nothing
/// that is registered.
pub open spec fn new_tag<P>(
    candidate: PrefabCandidate,
    registrations: Seq<PrefabRegistration<P>>,
) -> Option<(Entity, PrefabId)> {
    if candidate.prefab is Some {
        None
    } else {
        match first_match(candidate.matches@, registrations) {
            Some(prefab) => Some((candidate.entity, prefab)),
            None => None,
        }
    }
}

/// Finds the first registration that an entity looks like.
fn find_prefab<P>(matches: &Vec<bool>, registrations: &Vec<PrefabRegistration<P>>) -> (found:
    Option<PrefabId>)
    ensures
        found == first_match(matches@, registrations@),
{
    let mut index: usize = 0;
    assert(matches@.skip(0) =~= matches@);
    assert(registrations@.skip(0) =~= registrations@);
    while index < matches.len() && index < registrations.len()
        invariant
            index <= matches@.len(),
            index <= registrations@.len(),
            first_match(matches@, registrations@) == first_match(
                matches@.skip(index as int),
                registrations@.skip(index as int),
            ),
        decreases matches@.len() - index,
    {
        if matches[index] {
            return Some(PrefabId(registrations[index].wire_id));
        }
        assert(matches@.skip(index as int).skip(1) =~= matches@.skip(index + 1));
        assert(registrations@.skip(index as int).skip(1) =~= registrations@.skip(index + 1));
        index = index + 1;
    }
    None
}

/// Detects prefab matches on newly replicated entities.
///
/// Returns the entities that get a tag, each with the tag.
pub fn assign_prefab_ids<P>(
    candidates: &Vec<PrefabCandidate>,
    registrations: &Vec<PrefabRegistration<P>>,
) -> (tags: Vec<(Entity, PrefabId)>)
    ensures
        tags@ == candidates@.filter_map(
            |candidate: PrefabCandidate| new_tag(candidate, registrations@),
        ),
{
    let ghost tag = |candidate: PrefabCandidate| new_tag(candidate, registrations@);
    let mut tags: Vec<(Entity, PrefabId)> = Vec::new();
    let mut index: usize = 0;
    proof {
        reveal(Seq::filter_map);
    }
    assert(tags@ =~= candidates@.take(0).filter_map(tag));
    while index < candidates.len()
        invariant
            index <= candidates@.len(),
            tag == |candidate: PrefabCandidate| new_tag(candidate, registrations@),
            tags@ == candidates@.take(index as int).filter_map(tag),
        decreases candidates@.len() - index,
    {
        proof {
            reveal(Seq::filter_map);
        }
        let ghost before = tags@;
        let candidate = &candidates[index];
        if candidate.prefab.is_none() {
            if let Some(prefab) = find_prefab(&candidate.matches, registrations) {
                tags.push((candidate.entity, prefab));
                assert(tags@ =~= before + seq![(candidate.entity, prefab)]);
            }
        }
        assert(candidates@.take(index + 1).drop_last() =~= candidates@.take(index as int));
        index = index + 1;
    }
    assert(candidates@.take(candidates@.len() as int) =~= candidates@);
    tags
}

/// The index after entities were removed.
pub open spec fn index_without(index: IndexView, removed: Seq<Entity>) -> IndexView
    decreases removed.len(),
{
    if removed.len() == 0 {
        index
    } else {
        index_without(index, removed.drop_last()).remove_entity(removed.last())
    }
}

/// The despawn packets for removed entities: one for each that is known when
/// its turn comes.
pub open spec fn despawn_packets(index: IndexView, removed: Seq<Entity>) -> Seq<PacketView>
    decreases removed.len(),
{
    if removed.len() == 0 {
        Seq::empty()
    } else {
        let earlier = removed.drop_last();
        match index_without(index, earlier).network_id(removed.last()) {
            Some(network_id) => despawn_packets(index, earlier).push(
                PacketView::DespawnEntity { network_id: network_id.0 },
            ),
            None => despawn_packets(index, earlier),
        }
    }
}

/// Converts despawned replicated entities into network despawn packets.
pub fn replicate_removals(removed: &Vec<Entity>, net: &mut NetResource, index: &mut EntityIndex)
    ensures
        if old(net)@.is_server == Some(true) {
            &&& final(net)@ == (NetView {
                outbox: old(net)@.outbox + despawn_packets(old(index)@, removed@),
                ..old(net)@
            })
            &&& final(index)@ == index_without(old(index)@, removed@)
        } else {
            final(net)@ == old(net)@ && final(index)@ == old(index)@
        },
{
    if !net.is_server() {
        return;
    }
    let ghost start = (net@, index@);
    let mut at: usize = 0;
    assert(removed@.take(0) =~= Seq::<Entity>::empty());
    assert(net@.outbox =~= net@.outbox + despawn_packets(index@, removed@.take(0)));
    while at < removed.len()
        invariant
            at <= removed@.len(),
            start == (old(net)@, old(index)@),
            net@ == (NetView {
                outbox: start.0.outbox + despawn_packets(start.1, removed@.take(at as int)),
                ..start.0
            }),
            index@ == index_without(start.1, removed@.take(at as int)),
        decreases removed@.len() - at,
    {
        let ghost before = net@;
        let ghost earlier = despawn_packets(start.1, removed@.take(at as int));
        assert(removed@.take(at + 1).drop_last() =~= removed@.take(at as int));
        if let Some(network_id) = index.remove_entity(removed[at]) {
            net.queue_packet(ReplicationPacket::DespawnEntity { network_id: network_id.0 });
            assert((start.0.outbox + earlier).push(
                PacketView::DespawnEntity { network_id: network_id.0 },
            ) =~= start.0.outbox + earlier.push(
                PacketView::DespawnEntity { network_id: network_id.0 },
            ));
        }
        at = at + 1;
    }
    assert(removed@.take(removed@.len() as int) =~= removed@);
}

/// What assignment makes of the index, entity by entity.
proof fn lemma_index_assigned(
    index: IndexView,
    entities: Seq<(Entity, Option<PrefabId>)>,
    next: u64,
)
    requires
        index.consistent(),
        next + entities.len() <= u64::MAX,
        forall|id: NetworkId| #[trigger] index.by_network.dom().contains(id) ==> id.0 < next,
        forall|i: int|
            0 <= i < entities.len() ==> !index.by_entity.dom().contains((#[trigger] entities[i]).0),
        forall|i: int, j: int|
            0 <= i < j < entities.len() ==> (#[trigger] entities[i]).0 != (
            #[trigger] entities[j]).0,
    ensures
        ({
            let after = index_assigned(index, entities, next);
            &&& after.consistent()
            &&& forall|id: NetworkId| #[trigger]
                after.by_network.dom().contains(id) ==> id.0 < next + entities.len()
            &&& forall|id: NetworkId|
                index.by_network.dom().contains(id) ==> #[trigger] after.entity(id)
                    == index.entity(id)
            &&& forall|i: int|
                0 <= i < entities.len() ==> after.entity(assigned_id(next, i)) == Some(
                    (#[trigger] entities[i]).0,
                )
            &&& forall|entity: Entity| #[trigger]
                after.by_entity.dom().contains(entity) ==> index.by_entity.dom().contains(entity)
                    || exists|i: int| 0 <= i < entities.len() && (#[trigger] entities[i]).0 == entity
        }),
    decreases entities.len(),
{
    if entities.len() > 0 {
        let rest = entities.drop_last();
        assert forall|i: int| 0 <= i < rest.len() implies #[trigger] rest[i] == entities[i] by {}
        lemma_index_assigned(index, rest, next);
        let before = index_assigned(index, rest, next);
        let after = index_assigned(index, entities, next);
        let last = entities[entities.len() - 1].0;
        let id = assigned_id(next, rest.len() as int);
        assert(after == before.insert(id, last));
        assert(before.entity(id) is None);
        assert(before.network_id(last) is None) by {
            if before.by_entity.dom().contains(last) {
                let i = choose|i: int| 0 <= i < rest.len() && (#[trigger] rest[i]).0 == last;
                assert(entities[i].0 != entities[entities.len() - 1].0);
            }
        }
        replicated::law_index_stays_consistent(before, id, last);
        assert forall|known: NetworkId| index.by_network.dom().contains(known) implies
            #[trigger] after.entity(known) == index.entity(known) by {
            assert(before.entity(known) == index.entity(known));
        }
        assert forall|i: int| 0 <= i < entities.len() implies after.entity(assigned_id(next, i))
            == Some((#[trigger] entities[i]).0) by {
            if i < rest.len() {
                assert(rest[i] == entities[i]);
            }
        }
        assert forall|entity: Entity| #[trigger]
            after.by_entity.dom().contains(entity) implies index.by_entity.dom().contains(entity)
            || exists|i: int| 0 <= i < entities.len() && (#[trigger] entities[i]).0 == entity by {
            if entity == last {
                assert(entities[entities.len() - 1].0 == entity);
            } else {
                assert(before.by_entity.dom().contains(entity));
                if !index.by_entity.dom().contains(entity) {
                    let i = choose|i: int| 0 <= i < rest.len() && (#[trigger] rest[i]).0 == entity;
                    assert(entities[i].0 == entity);
                }
            }
        }
    }
}

/// Newly replicated entities get network IDs that were never given out
/// before, each its own; they are found under them, and what was known stays
/// known. The index stays consistent, and all IDs in use stay below the next.
pub proof fn law_assigned_ids_are_new<C, R, P>(
    world: WorldView<C, R, P>,
    entities: Seq<(Entity, Option<PrefabId>)>,
)
    requires
        world.index.consistent(),
        world.ids_below_next(),
        world.next_network_id + entities.len() <= u64::MAX,
        forall|i: int|
            0 <= i < entities.len() ==> world.index.network_id(
                (#[trigger] entities[i]).0,
            ) is None,
        forall|i: int, j: int|
            0 <= i < j < entities.len() ==> (#[trigger] entities[i]).0 != (
            #[trigger] entities[j]).0,
    ensures
        forall|i: int|
            0 <= i < entities.len() ==> world.index.entity(
                assigned_id(world.next_network_id, i),
            ) is None && world.after_assignment(entities).index.entity(
                assigned_id(world.next_network_id, i),
            ) == Some((#[trigger] entities[i]).0),
        forall|i: int, j: int|
            0 <= i < j < entities.len() ==> #[trigger] assigned_id(world.next_network_id, i)
                != #[trigger] assigned_id(world.next_network_id, j),
        forall|known: NetworkId| #[trigger]
            world.index.entity(known) is Some ==> world.after_assignment(entities).index.entity(
                known,
            ) == world.index.entity(known),
        world.after_assignment(entities).index.consistent(),
        world.after_assignment(entities).ids_below_next(),
{
    assert forall|i: int| 0 <= i < entities.len() implies !world.index.by_entity.dom().contains(
        (#[trigger] entities[i]).0,
    ) by {
        assert(world.index.network_id(entities[i].0) is None);
    }
    lemma_index_assigned(world.index, entities, world.next_network_id);
}

/// The updates of one batch carry increasing numbers, and those of the next
/// batch higher ones.
pub proof fn law_update_numbers_increase(
    wire_id: u64,
    updates: Seq<(NetworkId, Seq<u8>)>,
    later_wire_id: u64,
    later: Seq<(NetworkId, Seq<u8>)>,
    state: SequenceView,
    i: int,
    j: int,
)
    requires
        state.next_outgoing + updates.len() + later.len() <= u64::MAX,
        0 <= i < j < updates.len() + later.len(),
    ensures
        ({
            let sent = component_updates(wire_id, updates, state.next_outgoing)
                + component_updates(
                later_wire_id,
                later,
                state.issue(updates.len()).next_outgoing,
            );
            sent[i]->UpdateComponent_sequence < sent[j]->UpdateComponent_sequence
        }),
{
}

/// The first registered prefab that a newly replicated entity looks like is
/// its tag, and a tag that it has already stays.
pub proof fn law_first_matching_prefab_is_taken<P>(
    candidate: PrefabCandidate,
    registrations: Seq<PrefabRegistration<P>>,
    first: int,
)
    requires
        0 <= first < candidate.matches@.len(),
        first < registrations.len(),
        candidate.matches@[first],
        forall|i: int| 0 <= i < first ==> !(#[trigger] candidate.matches@[i]),
    ensures
        new_tag(candidate, registrations) == match candidate.prefab {
            Some(_) => None,
            None => Some((candidate.entity, PrefabId(registrations[first].wire_id))),
        },
{
    lemma_first_match(candidate.matches@, registrations, first);
}

/// The first match is found.
proof fn lemma_first_match<P>(
    matches: Seq<bool>,
    registrations: Seq<PrefabRegistration<P>>,
    first: int,
)
    requires
        0 <= first < matches.len(),
        first < registrations.len(),
        matches[first],
        forall|i: int| 0 <= i < first ==> !(#[trigger] matches[i]),
    ensures
        first_match(matches, registrations) == Some(PrefabId(registrations[first].wire_id)),
    decreases first,
{
    if first > 0 {
        assert(!matches[0]);
        assert forall|i: int| 0 <= i < first - 1 implies !(#[trigger] matches.skip(1)[i]) by {
            assert(!matches[i + 1]);
        }
        lemma_first_match(matches.skip(1), registrations.skip(1), first - 1);
    }
}

/// A known entity that was removed is announced by exactly one despawn packet,
/// however often it is listed, and is unknown from then on; an unknown one is
/// not announced.
pub proof fn law_removals_are_announced_once(
    index: IndexView,
    removed: Seq<Entity>,
    network_id: NetworkId,
)
    requires
        index.consistent(),
    ensures
        despawn_packets(index, removed).no_duplicates(),
        despawn_packets(index, removed).contains(
            PacketView::DespawnEntity { network_id: network_id.0 },
        ) <==> index.entity(network_id) is Some && removed.contains(index.entity(network_id)->0),
        index_without(index, removed).entity(network_id) == if removed.contains(
            index.entity(network_id)->0,
        ) {
            None
        } else {
            index.entity(network_id)
        },
        index_without(index, removed).consistent(),
    decreases removed.len(),
{
    if removed.len() > 0 {
        let earlier = removed.drop_last();
        let last = removed.last();
        law_removals_are_announced_once(index, earlier, network_id);
        let before = index_without(index, earlier);
        assert(removed =~= earlier.push(last));
        assert(removed.contains(last)) by {
            assert(removed[removed.len() - 1] == last);
        }
        assert forall|entity: Entity| #[trigger] removed.contains(entity) <==> earlier.contains(
            entity,
        ) || entity == last by {
            if earlier.contains(entity) {
                assert(removed[earlier.index_of(entity)] == entity);
            }
            if removed.contains(entity) && entity != last {
                assert(earlier[removed.index_of(entity)] == entity);
            }
        }
        let packets = despawn_packets(index, earlier);
        if let Some(id) = before.network_id(last) {
            law_removals_are_announced_once(index, earlier, id);
            let despawn = PacketView::DespawnEntity { network_id: id.0 };
            assert(before.entity(id) == Some(last));
            assert(!packets.contains(despawn));
            assert(NetworkId(id.0) == id);
            assert(despawn_packets(index, removed) == packets.push(despawn));
            let wanted = PacketView::DespawnEntity { network_id: network_id.0 };
            assert(packets.push(despawn).contains(wanted) <==> packets.contains(wanted) || wanted
                == despawn) by {
                if packets.contains(wanted) {
                    assert(packets.push(despawn)[packets.index_of(wanted)] == wanted);
                }
                assert(packets.push(despawn)[packets.len() as int] == despawn);
                if packets.push(despawn).contains(wanted) && wanted != despawn {
                    assert(packets[packets.push(despawn).index_of(wanted)] == wanted);
                }
            }
            assert(packets.push(despawn).no_duplicates()) by {
                assert forall|a: int, b: int|
                    0 <= a < packets.len() + 1 && 0 <= b < packets.len() + 1 && a
                        != b implies packets.push(despawn)[a] != packets.push(despawn)[b] by {
                    if a < packets.len() {
                        assert(packets.contains(packets[a]));
                    }
                    if b < packets.len() {
                        assert(packets.contains(packets[b]));
                    }
                }
            }
        }
    }
}

/// All IDs in use are below the next at first, and removals keep it so.
pub proof fn law_ids_stay_below_next<C, R, P>(world: WorldView<C, R, P>, removed: Seq<Entity>)
    requires
        world.index.consistent(),
        world.ids_below_next(),
    ensures
        WorldView::<C, R, P>::initial().ids_below_next(),
        (WorldView { index: index_without(world.index, removed), ..world }).ids_below_next(),
{
    let after = WorldView { index: index_without(world.index, removed), ..world };
    assert forall|id: NetworkId| #[trigger]
        after.index.by_network.dom().contains(id) implies id.0 < after.next_network_id by {
        law_removals_are_announced_once(world.index, removed, id);
        assert(after.index.entity(id) is Some);
        assert(world.index.entity(id) is Some);
        assert(world.index.by_network.dom().contains(id));
    }
}

/// Each component of a query goes out under the network ID of its own entity,
/// as one of its own serialised forms, with the next number, in order and behind
/// what was queued before. Nothing else is queued, and nothing else changes.
pub proof fn law_each_component_goes_out_under_its_own_id<T: SyncComponent>(
    query: Seq<(NetworkId, &T)>,
    before: (NetView, SequenceView),
    after: (NetView, SequenceView),
)
    requires
        syncs_components(query, before, after),
    ensures
        after.0.outbox.len() == before.0.outbox.len() + query.len(),
        forall|i: int|
            0 <= i < before.0.outbox.len() ==> #[trigger] after.0.outbox[i] == before.0.outbox[i],
        forall|i: int|
            0 <= i < query.len() ==> match #[trigger] after.0.outbox[before.0.outbox.len() + i] {
                PacketView::UpdateComponent { network_id, component_wire_id, sequence, bytes } => {
                    &&& network_id == query[i].0.0
                    &&& component_wire_id == netmsg::wire_id_of::<T>()
                    &&& netmsg::encodes_to(query[i].1, bytes)
                    &&& before.1.next_outgoing + i <= u64::MAX ==> sequence as int
                        == before.1.next_outgoing + i
                    &&& before.1.next_outgoing + i > u64::MAX ==> sequence == u64::MAX
                },
                _ => false,
            },
        (NetView { outbox: before.0.outbox, ..after.0 }) == before.0,
        after.1.latest_incoming == before.1.latest_incoming,
        before.1.next_outgoing + query.len() <= u64::MAX ==> after.1.next_outgoing as int
            == before.1.next_outgoing + query.len(),
        before.1.next_outgoing + query.len() > u64::MAX ==> after.1.next_outgoing == u64::MAX,
{
    let updates = choose|updates: Seq<(NetworkId, Seq<u8>)>|
        {
            &&& #[trigger] encodes_all(query, updates)
            &&& after.0 == NetView {
                outbox: before.0.outbox + component_updates(
                    netmsg::wire_id_of::<T>(),
                    updates,
                    before.1.next_outgoing,
                ),
                ..before.0
            }
            &&& after.1 == before.1.issue(query.len())
        };
    assert forall|i: int| 0 <= i < query.len() implies match #[trigger] after.0.outbox[
    before.0.outbox.len() + i] {
        PacketView::UpdateComponent { network_id, component_wire_id, sequence, bytes } => {
            &&& network_id == query[i].0.0
            &&& component_wire_id == netmsg::wire_id_of::<T>()
            &&& netmsg::encodes_to(query[i].1, bytes)
            &&& before.1.next_outgoing + i <= u64::MAX ==> sequence as int
                == before.1.next_outgoing + i
            &&& before.1.next_outgoing + i > u64::MAX ==> sequence == u64::MAX
        },
        _ => false,
    } by {
        assert(updates[i].0 == query[i].0);
    }
}

/// The serialised forms of a query's components stand at their places: each has
/// the network ID of its own entity and is a form of its own component.
pub proof fn law_each_component_has_its_own_form<T: WireType>(
    query: Seq<(NetworkId, &T)>,
    updates: Seq<(NetworkId, Seq<u8>)>,
    i: int,
)
    requires
        encodes_all(query, updates),
        0 <= i < query.len(),
    ensures
        updates.len() == query.len(),
        updates[i].0 == query[i].0,
        netmsg::encodes_to(query[i].1, updates[i].1),
{
    assert(updates[i].0 == query[i].0);
}

/// Serialised values become one packet each, at their places, with consecutive
/// numbers up to the highest.
pub proof fn law_values_become_numbered_packets(
    wire_id: u64,
    updates: Seq<(NetworkId, Seq<u8>)>,
    next: u64,
    i: int,
)
    requires
        0 <= i < updates.len(),
    ensures
        component_updates(wire_id, updates, next).len() == updates.len(),
        component_updates(wire_id, updates, next)[i] == (PacketView::UpdateComponent {
            network_id: updates[i].0.0,
            component_wire_id: wire_id,
            sequence: if next + i <= u64::MAX {
                (next + i) as u64
            } else {
                u64::MAX
            },
            bytes: updates[i].1,
        }),
{
}

/// A list of serialised values says what its items hold.
pub proof fn law_values_say_what_they_hold(updates: Seq<(NetworkId, Vec<u8>)>, i: int)
    requires
        0 <= i < updates.len(),
    ensures
        update_views(updates).len() == updates.len(),
        update_views(updates)[i].0 == updates[i].0,
        update_views(updates)[i].1 == updates[i].1@,
{
}

/// Each newly replicated entity is announced by a spawn packet with its network
/// ID and its prefab, zero for none, in order and behind what was queued before.
/// The next network ID moves on by as many, up to the highest, and nothing but
/// the index changes besides.
pub proof fn law_new_entities_are_announced<C, R, P>(
    world: WorldView<C, R, P>,
    entities: Seq<(Entity, Option<PrefabId>)>,
)
    ensures
        ({
            let after = world.after_assignment(entities);
            let next = world.next_network_id;
            &&& after.net.outbox.len() == world.net.outbox.len() + entities.len()
            &&& forall|i: int|
                0 <= i < world.net.outbox.len() ==> #[trigger] after.net.outbox[i]
                    == world.net.outbox[i]
            &&& forall|i: int|
                0 <= i < entities.len() ==> #[trigger] after.net.outbox[world.net.outbox.len() + i]
                    == (PacketView::SpawnEntity {
                    network_id: if next + i <= u64::MAX {
                        (next + i) as u64
                    } else {
                        u64::MAX
                    },
                    prefab_wire_id: match entities[i].1 {
                        Some(prefab) => prefab.0,
                        None => 0,
                    },
                })
            &&& next + entities.len() <= u64::MAX ==> after.next_network_id as int == next
                + entities.len()
            &&& next + entities.len() > u64::MAX ==> after.next_network_id == u64::MAX
            &&& after.index == index_assigned(world.index, entities, next)
            &&& (WorldView {
                net: NetView { outbox: world.net.outbox, ..after.net },
                next_network_id: next,
                index: world.index,
                ..after
            }) == world
        }),
{
    let after = world.after_assignment(entities);
    assert((WorldView {
        net: NetView { outbox: world.net.outbox, ..after.net },
        next_network_id: world.next_network_id,
        index: world.index,
        ..after
    }) =~= world);
}

/// New entities are stored in the index one after the other, each under its own
/// network ID; when no numbers are left, the highest stands for all further ones.
pub proof fn law_new_entities_are_stored_in_order(
    index: IndexView,
    entities: Seq<(Entity, Option<PrefabId>)>,
    entity: Entity,
    prefab: Option<PrefabId>,
    next: u64,
)
    ensures
        ({
            let id = NetworkId(
                if next + entities.len() <= u64::MAX {
                    (next + entities.len()) as u64
                } else {
                    u64::MAX
                },
            );
            let before = index_assigned(index, entities, next);
            let after = index_assigned(index, entities.push((entity, prefab)), next);
            &&& index_assigned(index, Seq::empty(), next) == index
            &&& after.by_network == before.by_network.insert(id, entity)
            &&& after.by_entity == before.by_entity.insert(entity, id)
            &&& assigned_id(next, entities.len() as int) == id
        }),
{
    assert(entities.push((entity, prefab)).drop_last() =~= entities);
}

/// The spawn packets for new entities stand at their places; when no numbers are
/// left, the highest stands for all further ones.
pub proof fn law_new_entities_have_spawn_packets(
    entities: Seq<(Entity, Option<PrefabId>)>,
    next: u64,
    i: int,
)
    requires
        0 <= i < entities.len(),
    ensures
        spawn_packets(entities, next).len() == entities.len(),
        spawn_packets(entities, next)[i] == (PacketView::SpawnEntity {
            network_id: if next + i <= u64::MAX {
                (next + i) as u64
            } else {
                u64::MAX
            },
            prefab_wire_id: match entities[i].1 {
                Some(prefab) => prefab.0,
                None => 0,
            },
        }),
        assigned_id(next, i).0 == spawn_packets(entities, next)[i]->SpawnEntity_network_id,
{
}

/// An entity that looks like no registered prefab gets no tag.
pub proof fn law_entities_like_no_prefab_get_no_tag<P>(
    candidate: PrefabCandidate,
    registrations: Seq<PrefabRegistration<P>>,
)
    requires
        forall|i: int|
            0 <= i < candidate.matches@.len() && i < registrations.len() ==> !(
            #[trigger] candidate.matches@[i]),
    ensures
        new_tag(candidate, registrations) is None,
{
    lemma_no_match(candidate.matches@, registrations);
}

/// Without a match none is found.
proof fn lemma_no_match<P>(matches: Seq<bool>, registrations: Seq<PrefabRegistration<P>>)
    requires
        forall|i: int|
            0 <= i < matches.len() && i < registrations.len() ==> !(#[trigger] matches[i]),
    ensures
        first_match(matches, registrations) is None,
    decreases matches.len(),
{
    if matches.len() > 0 && registrations.len() > 0 {
        assert(!matches[0]);
        assert forall|i: int|
            0 <= i < matches.skip(1).len() && i < registrations.skip(1).len() implies !(
        #[trigger] matches.skip(1)[i]) by {
            assert(!matches[i + 1]);
        }
        lemma_no_match(matches.skip(1), registrations.skip(1));
    }
}

/// Removed entities are taken out of the index one after the other. Each that is
/// known when its turn comes adds the despawn packet of its network ID; an
/// unknown one adds nothing.
pub proof fn law_removals_are_announced_in_order(
    index: IndexView,
    removed: Seq<Entity>,
    entity: Entity,
)
    ensures
        index_without(index, Seq::empty()) == index,
        despawn_packets(index, Seq::empty()).len() == 0,
        index_without(index, removed.push(entity)) == index_without(index, removed).remove_entity(
            entity,
        ),
        despawn_packets(index, removed.push(entity)) == match index_without(
            index,
            removed,
        ).network_id(entity) {
            Some(network_id) => despawn_packets(index, removed).push(
                PacketView::DespawnEntity { network_id: network_id.0 },
            ),
            None => despawn_packets(index, removed),
        },
{
    assert(removed.push(entity).drop_last() =~= removed);
}

} // verus!
