//! What the application of incoming packets guarantees.
use vstd::prelude::*;

use crate::lists;
use crate::netres::PacketView;
use crate::replicated;
use crate::replicated::{Entity, IndexView, NetworkId};
use crate::sync::frames;
use crate::sync::incoming;
use crate::sync::incoming::{CommandView, Progress, Surroundings};
use crate::sync::world::WorldView;

verus! {

impl<C, R, P> WorldView<C, R, P> {
    /// The progress when the spawn packets have been handled.
    pub open spec fn after_spawns(self, fresh: Seq<Entity>) -> Progress {
        incoming::handle_all(
            self.surroundings(fresh),
            Progress::start(self.index, self.sequence),
            incoming::of_phase(self.incoming(), 0),
        )
    }

    /// The progress when the updates have been handled too.
    pub open spec fn after_updates(self, fresh: Seq<Entity>) -> Progress {
        incoming::handle_all(
            self.surroundings(fresh),
            self.after_spawns(fresh),
            incoming::of_phase(self.incoming(), 1),
        )
    }
}

/// Whether an update is of a registered component but has no entity yet.
pub open spec fn waits<C, R, P>(
    around: Surroundings<C, R, P>,
    index: IndexView,
    packet: PacketView,
) -> bool {
    match packet {
        PacketView::UpdateComponent { network_id, component_wire_id, .. } => {
            &&& around.components.lookup(component_wire_id) is Some
            &&& index.entity(NetworkId(network_id)) is None
        },
        _ => false,
    }
}

/// Whether a packet spawns an entity under the network ID.
pub open spec fn spawns_id(packet: PacketView, network_id: u64) -> bool {
    match packet {
        PacketView::SpawnEntity { network_id: id, .. } => id == network_id,
        _ => false,
    }
}

/// Whether a packet updates the component of the stream's entity.
pub open spec fn of_stream(packet: PacketView, stream: (u64, u64)) -> bool {
    match packet {
        PacketView::UpdateComponent { network_id, component_wire_id, .. } => {
            (network_id, component_wire_id) == stream
        },
        _ => false,
    }
}

/// Whether an update is the newest of its stream among the packets.
pub open spec fn is_newest(
    packets: Seq<PacketView>,
    stream: (u64, u64),
    sequence: u64,
    bytes: Seq<u8>,
) -> bool {
    let newest = update(stream, sequence, bytes);
    &&& packets.contains(newest)
    &&& forall|i: int|
        0 <= i < packets.len() && of_stream(#[trigger] packets[i], stream) ==> packets[i] == newest
            || packets[i]->UpdateComponent_sequence < sequence
}

/// Whether an update is for a component type on an entity, under whatever
/// network ID.
pub open spec fn targets(
    index: IndexView,
    packet: PacketView,
    entity: Entity,
    component: u64,
) -> bool {
    match packet {
        PacketView::UpdateComponent { network_id, component_wire_id, .. } => {
            &&& component_wire_id == component
            &&& index.entity(NetworkId(network_id)) == Some(entity)
        },
        _ => false,
    }
}

/// Whether only updates of the stream are for the stream's component on the
/// entity: none comes under another network ID that stands for the entity.
pub open spec fn is_sole_stream(
    index: IndexView,
    packets: Seq<PacketView>,
    stream: (u64, u64),
    entity: Entity,
) -> bool {
    forall|i: int|
        0 <= i < packets.len() && targets(index, #[trigger] packets[i], entity, stream.1)
            ==> of_stream(packets[i], stream)
}

/// In an index where no other network ID stands for the entity, a stream is
/// always the only one.
pub proof fn law_streams_do_not_mix(
    index: IndexView,
    packets: Seq<PacketView>,
    stream: (u64, u64),
    entity: Entity,
)
    requires
        forall|id: NetworkId| #[trigger] index.entity(id) == Some(entity) ==> id.0 == stream.0,
    ensures
        is_sole_stream(index, packets, stream, entity),
{
}

/// What holds of all packets holds of those of a phase.
pub(crate) proof fn lemma_sole_stream_of_phase(
    index: IndexView,
    packets: Seq<PacketView>,
    wanted: int,
    stream: (u64, u64),
    entity: Entity,
)
    requires
        is_sole_stream(index, packets, stream, entity),
    ensures
        is_sole_stream(index, incoming::of_phase(packets, wanted), stream, entity),
{
    let kept = incoming::of_phase(packets, wanted);
    incoming::lemma_of_phase(packets, wanted);
    assert forall|i: int| 0 <= i < kept.len() && targets(
        index,
        #[trigger] kept[i],
        entity,
        stream.1,
    ) implies of_stream(kept[i], stream) by {
        lemma_phase_contains(packets, kept[i]);
        assert(kept.contains(kept[i]));
        let j = packets.index_of(kept[i]);
        assert(targets(index, packets[j], entity, stream.1));
    }
}

/// An update of a stream.
pub open spec fn update(stream: (u64, u64), sequence: u64, bytes: Seq<u8>) -> PacketView {
    PacketView::UpdateComponent {
        network_id: stream.0,
        component_wire_id: stream.1,
        sequence,
        bytes,
    }
}

/// The command that applies an update to an entity.
pub open spec fn applied(entity: Entity, stream: (u64, u64), bytes: Seq<u8>) -> CommandView {
    CommandView::ApplyComponent { entity, component_wire_id: stream.1, bytes }
}

/// Whether a command applies a component of the type to the entity.
pub open spec fn applies_to(command: CommandView, entity: Entity, component: u64) -> bool {
    match command {
        CommandView::ApplyComponent { entity: target, component_wire_id, .. } => {
            target == entity && component_wire_id == component
        },
        _ => false,
    }
}

/// The packets are put into three groups, spawns first, then updates, then
/// despawns; within each group they keep the order of arrival, and none is
/// lost or doubled.
pub proof fn law_packets_are_grouped_by_phase(packets: Seq<PacketView>, wanted: int)
    ensures
        incoming::by_phase(packets).to_multiset() == packets.to_multiset(),
        forall|i: int, j: int|
            0 <= i <= j < packets.len() ==> incoming::phase(
                #[trigger] incoming::by_phase(packets)[i],
            ) <= incoming::phase(#[trigger] incoming::by_phase(packets)[j]),
        incoming::of_phase(incoming::by_phase(packets), wanted) == incoming::of_phase(
            packets,
            wanted,
        ),
{
    let first = incoming::of_phase(packets, 0);
    let second = incoming::of_phase(packets, 1);
    let third = incoming::of_phase(packets, 2);
    lemma_phase_multiset(packets);
    vstd::seq_lib::lemma_multiset_commutative(first + second, third);
    vstd::seq_lib::lemma_multiset_commutative(first, second);
    assert(incoming::by_phase(packets).len() == packets.len()) by {
        incoming::by_phase(packets).to_multiset_ensures();
        packets.to_multiset_ensures();
    }
    lemma_phases_in_order(packets);
    lemma_phases_are_stable(packets, wanted);
}

/// The groups stand in order.
proof fn lemma_phases_in_order(packets: Seq<PacketView>)
    ensures
        forall|i: int, j: int|
            0 <= i <= j < incoming::by_phase(packets).len() ==> incoming::phase(
                #[trigger] incoming::by_phase(packets)[i],
            ) <= incoming::phase(#[trigger] incoming::by_phase(packets)[j]),
{
    let first = incoming::of_phase(packets, 0);
    let second = incoming::of_phase(packets, 1);
    let third = incoming::of_phase(packets, 2);
    let ordered = incoming::by_phase(packets);
    incoming::lemma_of_phase(packets, 0);
    incoming::lemma_of_phase(packets, 1);
    incoming::lemma_of_phase(packets, 2);
    assert forall|i: int| 0 <= i < ordered.len() implies incoming::phase(#[trigger] ordered[i])
        == if i < first.len() {
        0int
    } else if i < first.len() + second.len() {
        1
    } else {
        2
    } by {
        if i < first.len() {
            assert(ordered[i] == first[i]);
        } else if i < first.len() + second.len() {
            assert(ordered[i] == second[i - first.len()]);
        } else {
            assert(ordered[i] == third[i - first.len() - second.len()]);
        }
    }
}

/// Each group is in order of arrival.
proof fn lemma_phases_are_stable(packets: Seq<PacketView>, wanted: int)
    ensures
        incoming::of_phase(incoming::by_phase(packets), wanted) == incoming::of_phase(
            packets,
            wanted,
        ),
{
    let first = incoming::of_phase(packets, 0);
    let second = incoming::of_phase(packets, 1);
    let third = incoming::of_phase(packets, 2);
    let is_wanted = |packet: PacketView| incoming::phase(packet) == wanted;
    incoming::lemma_of_phase(packets, 0);
    incoming::lemma_of_phase(packets, 1);
    incoming::lemma_of_phase(packets, 2);
    Seq::filter_distributes_over_add(first + second, third, is_wanted);
    Seq::filter_distributes_over_add(first, second, is_wanted);
    lists::lemma_filter_extremes(first, is_wanted);
    lists::lemma_filter_extremes(second, is_wanted);
    lists::lemma_filter_extremes(third, is_wanted);
    if wanted != 0 && wanted != 1 && wanted != 2 {
        lists::lemma_filter_extremes(packets, is_wanted);
    }
    assert(incoming::of_phase(incoming::by_phase(packets), wanted) =~= incoming::of_phase(
        packets,
        wanted,
    ));
}

/// The three groups hold the packets.
proof fn lemma_phase_multiset(packets: Seq<PacketView>)
    ensures
        packets.to_multiset() == incoming::of_phase(packets, 0).to_multiset().add(
            incoming::of_phase(packets, 1).to_multiset(),
        ).add(incoming::of_phase(packets, 2).to_multiset()),
    decreases packets.len(),
{
    broadcast use vstd::seq_lib::group_to_multiset_ensures;

    reveal(Seq::filter);
    if packets.len() > 0 {
        let rest = packets.drop_last();
        lemma_phase_multiset(rest);
        assert(rest.push(packets.last()) =~= packets);
        assert(packets.to_multiset() =~= rest.to_multiset().insert(packets.last()));
    }
    assert(packets.to_multiset() =~= incoming::of_phase(packets, 0).to_multiset().add(
        incoming::of_phase(packets, 1).to_multiset(),
    ).add(incoming::of_phase(packets, 2).to_multiset()));
}

/// Handling two lists one after the other is handling them joined.
proof fn lemma_handle_joined<C, R, P>(
    around: Surroundings<C, R, P>,
    start: Progress,
    first: Seq<PacketView>,
    second: Seq<PacketView>,
)
    ensures
        incoming::handle_all(around, start, first + second) == incoming::handle_all(
            around,
            incoming::handle_all(around, start, first),
            second,
        ),
    decreases second.len(),
{
    if second.len() == 0 {
        assert(first + second =~= first);
    } else {
        lemma_handle_joined(around, start, first, second.drop_last());
        assert((first + second).drop_last() =~= first + second.drop_last());
    }
}

/// The despawns come after the updates, which come after the spawns.
pub(crate) proof fn lemma_stages<C, R, P>(world: WorldView<C, R, P>, fresh: Seq<Entity>)
    ensures
        world.handled(fresh) == incoming::handle_all(
            world.surroundings(fresh),
            world.after_updates(fresh),
            incoming::of_phase(world.incoming(), 2),
        ),
{
    let around = world.surroundings(fresh);
    let start = Progress::start(world.index, world.sequence);
    let first = incoming::of_phase(world.incoming(), 0);
    let second = incoming::of_phase(world.incoming(), 1);
    let third = incoming::of_phase(world.incoming(), 2);
    lemma_handle_joined(around, start, first + second, third);
    lemma_handle_joined(around, start, first, second);
}

/// A packet of a list is among those of its phase, and no others are.
pub(crate) proof fn lemma_phase_contains(packets: Seq<PacketView>, packet: PacketView)
    ensures
        incoming::of_phase(packets, incoming::phase(packet)).contains(packet) <==> packets.contains(
            packet,
        ),
{
    let wanted = |other: PacketView| incoming::phase(other) == incoming::phase(packet);
    if packets.contains(packet) {
        packets.lemma_filter_contains(wanted, packets.index_of(packet));
    }
    if packets.filter(wanted).contains(packet) {
        packets.lemma_filter_contains_rev(wanted, packet);
    }
}

/// Spawn packets put nothing off and give out entities in order.
pub(crate) proof fn lemma_spawn_stage<C, R, P>(
    around: Surroundings<C, R, P>,
    start: Progress,
    packets: Seq<PacketView>,
)
    requires
        forall|i: int| 0 <= i < packets.len() ==> incoming::phase(#[trigger] packets[i]) == 0,
    ensures
        ({
            let done = incoming::handle_all(around, start, packets);
            &&& done.sequence == start.sequence
            &&& done.deferred == start.deferred
            &&& done.taken == start.taken + packets.len()
            &&& done.commands.len() == start.commands.len() + packets.len()
            &&& done.commands.take(start.commands.len() as int) == start.commands
            &&& forall|i: int|
                0 <= i < packets.len() ==> #[trigger] done.commands[start.commands.len() + i]
                    == CommandView::Spawn {
                    entity: around.fresh[start.taken + i],
                    network_id: NetworkId(packets[i]->SpawnEntity_network_id),
                    prefab: incoming::known_prefab(
                        around.prefabs,
                        packets[i]->SpawnEntity_prefab_wire_id,
                    ),
                }
        }),
    decreases packets.len(),
{
    let done = incoming::handle_all(around, start, packets);
    if packets.len() > 0 {
        let rest = packets.drop_last();
        assert forall|i: int| 0 <= i < rest.len() implies incoming::phase(#[trigger] rest[i])
            == 0 by {
            assert(rest[i] == packets[i]);
        }
        lemma_spawn_stage(around, start, rest);
        let before = incoming::handle_all(around, start, rest);
        assert(incoming::phase(packets[packets.len() - 1]) == 0);
        assert forall|i: int| 0 <= i < packets.len() implies #[trigger] done.commands[
        start.commands.len() + i] == (CommandView::Spawn {
            entity: around.fresh[start.taken + i],
            network_id: NetworkId(packets[i]->SpawnEntity_network_id),
            prefab: incoming::known_prefab(
                around.prefabs,
                packets[i]->SpawnEntity_prefab_wire_id,
            ),
        }) by {
            if i < rest.len() {
                assert(done.commands[start.commands.len() + i]
                    == before.commands[start.commands.len() + i]);
                assert(rest[i] == packets[i]);
            }
        }
        assert(done.commands.take(start.commands.len() as int) =~= before.commands.take(
            start.commands.len() as int,
        ));
    }
    assert(done.commands.take(start.commands.len() as int) =~= start.commands);
}

/// Updates neither add nor remove entities; those without an entity wait.
pub(crate) proof fn lemma_update_stage<C, R, P>(
    around: Surroundings<C, R, P>,
    start: Progress,
    packets: Seq<PacketView>,
)
    requires
        forall|i: int| 0 <= i < packets.len() ==> incoming::phase(#[trigger] packets[i]) == 1,
    ensures
        ({
            let done = incoming::handle_all(around, start, packets);
            &&& done.index == start.index
            &&& done.taken == start.taken
            &&& done.deferred == start.deferred + packets.filter(
                |packet: PacketView| waits(around, start.index, packet),
            )
            &&& start.commands.len() <= done.commands.len()
            &&& done.commands.take(start.commands.len() as int) == start.commands
        }),
    decreases packets.len(),
{
    reveal(Seq::filter);
    let done = incoming::handle_all(around, start, packets);
    let waiting = |packet: PacketView| waits(around, start.index, packet);
    if packets.len() > 0 {
        let rest = packets.drop_last();
        assert forall|i: int| 0 <= i < rest.len() implies incoming::phase(#[trigger] rest[i])
            == 1 by {
            assert(rest[i] == packets[i]);
        }
        lemma_update_stage(around, start, rest);
        let before = incoming::handle_all(around, start, rest);
        assert(incoming::phase(packets[packets.len() - 1]) == 1);
        assert(done.commands.take(start.commands.len() as int) =~= before.commands.take(
            start.commands.len() as int,
        ));
    }
    assert(done.commands.take(start.commands.len() as int) =~= start.commands);
    assert(done.deferred =~= start.deferred + packets.filter(waiting));
}

/// Despawns only add commands that remove entities.
pub(crate) proof fn lemma_despawn_stage<C, R, P>(
    around: Surroundings<C, R, P>,
    start: Progress,
    packets: Seq<PacketView>,
)
    requires
        forall|i: int| 0 <= i < packets.len() ==> incoming::phase(#[trigger] packets[i]) == 2,
    ensures
        ({
            let done = incoming::handle_all(around, start, packets);
            &&& done.deferred == start.deferred
            &&& done.taken == start.taken
            &&& start.commands.len() <= done.commands.len()
            &&& done.commands.take(start.commands.len() as int) == start.commands
            &&& forall|i: int|
                start.commands.len() <= i < done.commands.len() ==> (
                #[trigger] done.commands[i]) is Despawn
            &&& forall|id: NetworkId| #[trigger]
                done.index.by_network.dom().contains(id)
                    ==> start.index.by_network.dom().contains(id) && done.index.by_network[id]
                    == start.index.by_network[id]
            &&& start.index.consistent() ==> done.index.consistent()
        }),
    decreases packets.len(),
{
    let done = incoming::handle_all(around, start, packets);
    if packets.len() > 0 {
        let rest = packets.drop_last();
        assert forall|i: int| 0 <= i < rest.len() implies incoming::phase(#[trigger] rest[i])
            == 2 by {
            assert(rest[i] == packets[i]);
        }
        lemma_despawn_stage(around, start, rest);
        let before = incoming::handle_all(around, start, rest);
        assert(incoming::phase(packets[packets.len() - 1]) == 2);
        let id = NetworkId(packets.last()->DespawnEntity_network_id);
        if let Some(entity) = before.index.entity(id) {
            if before.index.consistent() {
                replicated::law_index_stays_consistent(before.index, id, entity);
            }
        }
        assert(done.commands.take(start.commands.len() as int) =~= before.commands.take(
            start.commands.len() as int,
        ));
    }
    assert(done.commands.take(start.commands.len() as int) =~= start.commands);
}

/// The first commands mark one entity per spawn packet, in order of arrival,
/// each with the next empty entity and with the prefab if it is registered.
pub proof fn law_spawns_come_first<C, R, P>(world: WorldView<C, R, P>, fresh: Seq<Entity>, i: int)
    requires
        0 <= i < incoming::of_phase(world.incoming(), 0).len(),
    ensures
        i < world.handled(fresh).commands.len(),
        world.handled(fresh).taken == incoming::of_phase(world.incoming(), 0).len(),
        world.handled(fresh).commands[i] == (CommandView::Spawn {
            entity: fresh[i],
            network_id: NetworkId(
                incoming::of_phase(world.incoming(), 0)[i]->SpawnEntity_network_id,
            ),
            prefab: incoming::known_prefab(
                world.prefabs,
                incoming::of_phase(world.incoming(), 0)[i]->SpawnEntity_prefab_wire_id,
            ),
        }),
{
    let all = world.incoming();
    let around = world.surroundings(fresh);
    incoming::lemma_of_phase(all, 0);
    incoming::lemma_of_phase(all, 1);
    incoming::lemma_of_phase(all, 2);
    lemma_stages(world, fresh);
    lemma_spawn_stage(
        around,
        Progress::start(world.index, world.sequence),
        incoming::of_phase(all, 0),
    );
    lemma_update_stage(around, world.after_spawns(fresh), incoming::of_phase(all, 1));
    lemma_despawn_stage(around, world.after_updates(fresh), incoming::of_phase(all, 2));
    let spawned = world.after_spawns(fresh).commands;
    let updated = world.after_updates(fresh).commands;
    let handled = world.handled(fresh).commands;
    assert(spawned[0 + i] == spawned[i]);
    assert(updated.take(spawned.len() as int)[i] == updated[i]);
    assert(handled.take(updated.len() as int)[i] == handled[i]);
}

/// After a frame exactly those component updates wait that are of a registered
/// component and whose entity had not been spawned when the updates' turn
/// came; they wait in order of arrival.
pub proof fn law_updates_without_entity_wait<C, R, P>(world: WorldView<C, R, P>, fresh: Seq<Entity>)
    ensures
        world.after_incoming(fresh).pending == incoming::of_phase(world.incoming(), 1).filter(
            |packet: PacketView|
                waits(world.surroundings(fresh), world.after_spawns(fresh).index, packet),
        ),
{
    let all = world.incoming();
    let around = world.surroundings(fresh);
    incoming::lemma_of_phase(all, 0);
    incoming::lemma_of_phase(all, 1);
    incoming::lemma_of_phase(all, 2);
    lemma_stages(world, fresh);
    lemma_spawn_stage(
        around,
        Progress::start(world.index, world.sequence),
        incoming::of_phase(all, 0),
    );
    lemma_update_stage(around, world.after_spawns(fresh), incoming::of_phase(all, 1));
    lemma_despawn_stage(around, world.after_updates(fresh), incoming::of_phase(all, 2));
    assert(world.after_incoming(fresh).pending =~= incoming::of_phase(all, 1).filter(
        |packet: PacketView| waits(around, world.after_spawns(fresh).index, packet),
    ));
}

/// What the spawn packets make of the index.
proof fn lemma_spawned_index<C, R, P>(
    around: Surroundings<C, R, P>,
    start: Progress,
    packets: Seq<PacketView>,
    network_id: u64,
)
    requires
        forall|i: int| 0 <= i < packets.len() ==> incoming::phase(#[trigger] packets[i]) == 0,
    ensures
        (forall|i: int| 0 <= i < packets.len() ==> !spawns_id(#[trigger] packets[i], network_id))
            ==> incoming::handle_all(around, start, packets).index.entity(NetworkId(network_id))
            == start.index.entity(NetworkId(network_id)),
        (exists|i: int| 0 <= i < packets.len() && spawns_id(#[trigger] packets[i], network_id))
            ==> incoming::handle_all(around, start, packets).index.entity(
            NetworkId(network_id),
        ) is Some,
    decreases packets.len(),
{
    if packets.len() > 0 {
        let rest = packets.drop_last();
        assert forall|i: int| 0 <= i < rest.len() implies #[trigger] rest[i] == packets[i] by {}
        lemma_spawned_index(around, start, rest, network_id);
        let last = packets[packets.len() - 1];
        assert(incoming::phase(last) == 0);
        if exists|i: int| 0 <= i < packets.len() && spawns_id(#[trigger] packets[i], network_id) {
            let i = choose|i: int|
                0 <= i < packets.len() && spawns_id(#[trigger] packets[i], network_id);
            if i < rest.len() {
                assert(spawns_id(rest[i], network_id));
            }
        }
        if forall|i: int| 0 <= i < packets.len() ==> !spawns_id(#[trigger] packets[i], network_id) {
            assert(!spawns_id(last, network_id));
        }
    }
}

/// An entity that a frame spawns is known when the updates' turn comes, and
/// an entity that it does not spawn is known then as it was before.
pub proof fn law_updates_see_all_spawns<C, R, P>(
    world: WorldView<C, R, P>,
    fresh: Seq<Entity>,
    network_id: u64,
)
    ensures
        (exists|i: int|
            0 <= i < world.incoming().len() && spawns_id(
                #[trigger] world.incoming()[i],
                network_id,
            )) ==> world.after_spawns(fresh).index.entity(NetworkId(network_id)) is Some,
        (forall|i: int|
            0 <= i < world.incoming().len() ==> !spawns_id(
                #[trigger] world.incoming()[i],
                network_id,
            )) ==> world.after_spawns(fresh).index.entity(NetworkId(network_id))
            == world.index.entity(NetworkId(network_id)),
        world.after_updates(fresh).index == world.after_spawns(fresh).index,
{
    let all = world.incoming();
    let first = incoming::of_phase(all, 0);
    incoming::lemma_of_phase(all, 0);
    incoming::lemma_of_phase(all, 1);
    lemma_spawned_index(
        world.surroundings(fresh),
        Progress::start(world.index, world.sequence),
        first,
        network_id,
    );
    lemma_update_stage(
        world.surroundings(fresh),
        world.after_spawns(fresh),
        incoming::of_phase(all, 1),
    );
    if exists|i: int| 0 <= i < all.len() && spawns_id(#[trigger] all[i], network_id) {
        let i = choose|i: int| 0 <= i < all.len() && spawns_id(#[trigger] all[i], network_id);
        lemma_phase_contains(all, all[i]);
        assert(all.contains(all[i]));
        let j = first.index_of(all[i]);
        assert(spawns_id(first[j], network_id));
    } else {
        assert forall|j: int| 0 <= j < first.len() implies !spawns_id(
            #[trigger] first[j],
            network_id,
        ) by {
            lemma_phase_contains(all, first[j]);
            assert(first.contains(first[j]));
            let i = all.index_of(first[j]);
            assert(!spawns_id(all[i], network_id));
        }
    }
}

/// A stream stays open for a number that all handled updates of it are below.
proof fn lemma_stays_fresh<C, R, P>(
    around: Surroundings<C, R, P>,
    start: Progress,
    packets: Seq<PacketView>,
    stream: (u64, u64),
    sequence: u64,
)
    requires
        forall|i: int| 0 <= i < packets.len() ==> incoming::phase(#[trigger] packets[i]) == 1,
        forall|i: int|
            0 <= i < packets.len() && of_stream(#[trigger] packets[i], stream)
                ==> packets[i]->UpdateComponent_sequence < sequence,
        start.sequence.is_fresh(stream, sequence),
    ensures
        incoming::handle_all(around, start, packets).sequence.is_fresh(stream, sequence),
    decreases packets.len(),
{
    if packets.len() > 0 {
        let rest = packets.drop_last();
        assert forall|i: int| 0 <= i < rest.len() implies #[trigger] rest[i] == packets[i] by {}
        lemma_stays_fresh(around, start, rest, stream, sequence);
        let last = packets[packets.len() - 1];
        assert(incoming::phase(last) == 1);
        assert(of_stream(last, stream) ==> last->UpdateComponent_sequence < sequence);
    }
}

/// Whether the last command that applies the component to the entity is the
/// given one.
pub open spec fn applied_last(
    commands: Seq<CommandView>,
    entity: Entity,
    stream: (u64, u64),
    bytes: Seq<u8>,
) -> bool {
    exists|i: int|
        {
            &&& 0 <= i < commands.len()
            &&& #[trigger] commands[i] == applied(entity, stream, bytes)
            &&& forall|j: int|
                i < j < commands.len() ==> !applies_to(
                    #[trigger] commands[j],
                    entity,
                    stream.1,
                )
        }
}

/// The newest update of a stream is the last that the updates' turn applies.
proof fn lemma_newest_applied<C, R, P>(
    around: Surroundings<C, R, P>,
    start: Progress,
    packets: Seq<PacketView>,
    stream: (u64, u64),
    sequence: u64,
    bytes: Seq<u8>,
    entity: Entity,
)
    requires
        forall|i: int| 0 <= i < packets.len() ==> incoming::phase(#[trigger] packets[i]) == 1,
        is_newest(packets, stream, sequence, bytes),
        around.components.lookup(stream.1) is Some,
        is_sole_stream(start.index, packets, stream, entity),
        start.index.entity(NetworkId(stream.0)) == Some(entity),
        start.sequence.is_fresh(stream, sequence),
    ensures
        applied_last(
            incoming::handle_all(around, start, packets).commands,
            entity,
            stream,
            bytes,
        ),
        !incoming::handle_all(around, start, packets).sequence.is_fresh(stream, sequence),
    decreases packets.len(),
{
    let newest = update(stream, sequence, bytes);
    let rest = packets.drop_last();
    let last = packets.last();
    assert(packets.contains(newest));
    assert(packets.len() > 0);
    assert(last == packets[packets.len() - 1]);
    assert forall|i: int| 0 <= i < rest.len() implies #[trigger] rest[i] == packets[i] by {}
    lemma_update_stage(around, start, rest);
    let before = incoming::handle_all(around, start, rest);
    let done = incoming::handle_all(around, start, packets);
    if rest.contains(newest) {
        assert(is_sole_stream(start.index, rest, stream, entity)) by {
            assert forall|i: int| 0 <= i < rest.len() && targets(
                start.index,
                #[trigger] rest[i],
                entity,
                stream.1,
            ) implies of_stream(rest[i], stream) by {
                assert(targets(start.index, packets[i], entity, stream.1));
            }
        }
        lemma_newest_applied(around, start, rest, stream, sequence, bytes, entity);
        let i = choose|i: int|
            {
                &&& 0 <= i < before.commands.len()
                &&& #[trigger] before.commands[i] == applied(entity, stream, bytes)
                &&& forall|j: int|
                    i < j < before.commands.len() ==> !applies_to(
                        #[trigger] before.commands[j],
                        entity,
                        stream.1,
                    )
            };
        assert(incoming::phase(last) == 1);
        assert(targets(start.index, last, entity, stream.1) ==> of_stream(last, stream));
        assert(done.commands[i] == applied(entity, stream, bytes));
        assert forall|j: int| i < j < done.commands.len() implies !applies_to(
            #[trigger] done.commands[j],
            entity,
            stream.1,
        ) by {
            if j < before.commands.len() {
                assert(done.commands[j] == before.commands[j]);
            }
        }
    } else {
        let k = packets.index_of(newest);
        assert(packets[k] == newest);
        if k < rest.len() {
            assert(rest[k] == newest);
        }
        assert(last == newest);
        assert forall|i: int| 0 <= i < rest.len() && of_stream(
            #[trigger] rest[i],
            stream,
        ) implies rest[i]->UpdateComponent_sequence < sequence by {
            assert(rest.contains(rest[i]));
            assert(of_stream(packets[i], stream));
        }
        lemma_stays_fresh(around, start, rest, stream, sequence);
        assert(done.commands[done.commands.len() - 1] == applied(entity, stream, bytes));
    }
}

/// Whatever the order in which the updates of a stream arrive, the newest of
/// them is the last to be applied in the frame, where it is newer than all
/// that were accepted before and its entity is known, under no other network
/// ID that is updated too. Where the entity is not despawned, its number stays
/// noted: the same and older ones are late then.
pub proof fn law_newest_update_is_applied_last<C, R, P>(
    world: WorldView<C, R, P>,
    fresh: Seq<Entity>,
    stream: (u64, u64),
    sequence: u64,
    bytes: Seq<u8>,
    entity: Entity,
)
    requires
        is_newest(world.incoming(), stream, sequence, bytes),
        world.components.lookup(stream.1) is Some,
        is_sole_stream(
            world.after_spawns(fresh).index,
            world.incoming(),
            stream,
            entity,
        ),
        world.after_spawns(fresh).index.entity(NetworkId(stream.0)) == Some(entity),
        world.sequence.is_fresh(stream, sequence),
    ensures
        applied_last(world.handled(fresh).commands, entity, stream, bytes),
        !world.incoming().contains(PacketView::DespawnEntity { network_id: stream.0 })
            ==> !world.after_incoming(fresh).sequence.is_fresh(stream, sequence),
{
    let all = world.incoming();
    let around = world.surroundings(fresh);
    let second = incoming::of_phase(all, 1);
    let newest = update(stream, sequence, bytes);
    incoming::lemma_of_phase(all, 0);
    incoming::lemma_of_phase(all, 1);
    incoming::lemma_of_phase(all, 2);
    lemma_stages(world, fresh);
    lemma_spawn_stage(
        around,
        Progress::start(world.index, world.sequence),
        incoming::of_phase(all, 0),
    );
    lemma_phase_contains(all, newest);
    assert forall|j: int| 0 <= j < second.len() && of_stream(
        #[trigger] second[j],
        stream,
    ) implies second[j] == newest || second[j]->UpdateComponent_sequence < sequence by {
        lemma_phase_contains(all, second[j]);
        assert(second.contains(second[j]));
        let i = all.index_of(second[j]);
        assert(of_stream(all[i], stream));
    }
    lemma_sole_stream_of_phase(
        world.after_spawns(fresh).index,
        all,
        1,
        stream,
        entity,
    );
    lemma_newest_applied(
        around,
        world.after_spawns(fresh),
        second,
        stream,
        sequence,
        bytes,
        entity,
    );
    lemma_despawn_stage(around, world.after_updates(fresh), incoming::of_phase(all, 2));
    if !all.contains(PacketView::DespawnEntity { network_id: stream.0 }) {
        lemma_phase_contains(all, PacketView::DespawnEntity { network_id: stream.0 });
        frames::lemma_number_stays_noted(
            around,
            world.after_updates(fresh),
            incoming::of_phase(all, 2),
            stream,
        );
    }
    let updated = world.after_updates(fresh).commands;
    let handled = world.handled(fresh).commands;
    let i = choose|i: int|
        {
            &&& 0 <= i < updated.len()
            &&& #[trigger] updated[i] == applied(entity, stream, bytes)
            &&& forall|j: int|
                i < j < updated.len() ==> !applies_to(#[trigger] updated[j], entity, stream.1)
        };
    assert forall|j: int| 0 <= j < updated.len() implies #[trigger] handled[j] == updated[j] by {
        assert(handled.take(updated.len() as int)[j] == handled[j]);
    }
    assert(handled[i] == applied(entity, stream, bytes));
    assert forall|j: int| i < j < handled.len() implies !applies_to(
        #[trigger] handled[j],
        entity,
        stream.1,
    ) by {
        if j < updated.len() {
            assert(handled[j] == updated[j]);
        }
    }
}

/// A component update that arrives before its entity waits, and once the spawn
/// packet is there it is applied to the spawned entity.
pub proof fn law_early_update_is_applied_after_spawn<C, R, P>(
    early: WorldView<C, R, P>,
    early_fresh: Seq<Entity>,
    later: WorldView<C, R, P>,
    later_fresh: Seq<Entity>,
    stream: (u64, u64),
    sequence: u64,
    bytes: Seq<u8>,
    spawn: int,
)
    requires
        early.incoming().contains(update(stream, sequence, bytes)),
        early.components.lookup(stream.1) is Some,
        early.index.entity(NetworkId(stream.0)) is None,
        forall|i: int|
            0 <= i < early.incoming().len() ==> !spawns_id(
                #[trigger] early.incoming()[i],
                stream.0,
            ),
        later.pending == early.after_incoming(early_fresh).pending,
        later.components == early.components,
        later.sequence.is_fresh(stream, sequence),
        0 <= spawn < later.net.inbox.len(),
        spawns_id(later.net.inbox[spawn], stream.0),
        forall|i: int|
            0 <= i < later.incoming().len() && of_stream(#[trigger] later.incoming()[i], stream)
                ==> later.incoming()[i] == update(stream, sequence, bytes)
                || later.incoming()[i]->UpdateComponent_sequence < sequence,
        match later.after_spawns(later_fresh).index.entity(NetworkId(stream.0)) {
            Some(entity) => is_sole_stream(
                later.after_spawns(later_fresh).index,
                later.incoming(),
                stream,
                entity,
            ),
            None => true,
        },
    ensures
        early.after_incoming(early_fresh).pending.contains(update(stream, sequence, bytes)),
        match later.after_spawns(later_fresh).index.entity(NetworkId(stream.0)) {
            Some(entity) => applied_last(
                later.handled(later_fresh).commands,
                entity,
                stream,
                bytes,
            ),
            None => false,
        },
{
    let waiting = update(stream, sequence, bytes);
    let all = early.incoming();
    let around = early.surroundings(early_fresh);
    let index = early.after_spawns(early_fresh).index;
    law_updates_see_all_spawns(early, early_fresh, stream.0);
    law_updates_without_entity_wait(early, early_fresh);
    lemma_phase_contains(all, waiting);
    let second = incoming::of_phase(all, 1);
    second.lemma_filter_contains(
        |packet: PacketView| waits(around, index, packet),
        second.index_of(waiting),
    );
    let next = later.incoming();
    assert(next[later.pending.index_of(waiting)] == waiting);
    let at = later.pending.len() + spawn;
    assert(next[at] == later.net.inbox[spawn]);
    law_updates_see_all_spawns(later, later_fresh, stream.0);
    if let Some(entity) = later.after_spawns(later_fresh).index.entity(NetworkId(stream.0)) {
        law_newest_update_is_applied_last(
            later,
            later_fresh,
            stream,
            sequence,
            bytes,
            entity,
        );
    }
}

/// An update that is not newer than the last accepted of its stream changes
/// nothing, nor does a packet under an identifier that is not registered, nor
/// a despawn of an unknown entity.
pub proof fn law_late_and_unknown_packets_are_dropped<C, R, P>(
    around: Surroundings<C, R, P>,
    progress: Progress,
    packet: PacketView,
)
    requires
        match packet {
            PacketView::SpawnEntity { .. } => false,
            PacketView::DespawnEntity { network_id } => progress.index.entity(
                NetworkId(network_id),
            ) is None,
            PacketView::UpdateComponent { network_id, component_wire_id, sequence, .. } => {
                ||| around.components.lookup(component_wire_id) is None
                ||| progress.index.entity(NetworkId(network_id)) is Some
                    && !progress.sequence.is_fresh((network_id, component_wire_id), sequence)
            },
            PacketView::UpdateResource { resource_wire_id, .. } => around.resources.lookup(
                resource_wire_id,
            ) is None,
        },
    ensures
        incoming::handle(around, progress, packet) == progress,
{
}

/// A frame without packets changes nothing.
pub proof fn law_quiet_frame_changes_nothing<C, R, P>(
    world: WorldView<C, R, P>,
    fresh: Seq<Entity>,
)
    requires
        world.incoming().len() == 0,
    ensures
        world.handled(fresh).commands == Seq::<CommandView>::empty(),
        world.after_incoming(fresh) == world,
{
    reveal(Seq::filter);
    assert(world.pending =~= Seq::empty()) by {
        assert(world.incoming().len() == world.pending.len() + world.net.inbox.len());
    }
    assert(world.net.inbox =~= Seq::empty());
    assert(incoming::by_phase(world.incoming()).len() == 0);
}

/// Whether the entity of a network ID is indexed under it, and no other network
/// ID stands for an entity that is.
pub open spec fn is_indexed_apart(index: IndexView, network_id: NetworkId) -> bool {
    &&& match index.entity(network_id) {
        Some(entity) => index.network_id(entity) == Some(network_id),
        None => true,
    }
    &&& forall|other: NetworkId|
        other != network_id && index.by_network.dom().contains(other) ==> index.network_id(
            #[trigger] index.by_network[other],
        ) != Some(network_id)
}

/// Despawning removes an entity for good and forgets its streams.
proof fn lemma_despawned<C, R, P>(
    around: Surroundings<C, R, P>,
    start: Progress,
    packets: Seq<PacketView>,
    network_id: u64,
    entity: Entity,
)
    requires
        forall|i: int| 0 <= i < packets.len() ==> incoming::phase(#[trigger] packets[i]) == 2,
        packets.contains(PacketView::DespawnEntity { network_id }),
        is_indexed_apart(start.index, NetworkId(network_id)),
        start.index.entity(NetworkId(network_id)) == Some(entity),
    ensures
        ({
            let done = incoming::handle_all(around, start, packets);
            &&& done.index.entity(NetworkId(network_id)) is None
            &&& done.index.network_id(entity) is None
            &&& done.commands.contains(CommandView::Despawn { entity })
            &&& forall|component: u64|
                !(#[trigger] done.sequence.latest_incoming.dom().contains(
                    (network_id, component),
                ))
        }),
    decreases packets.len(),
{
    let despawn = PacketView::DespawnEntity { network_id };
    let rest = packets.drop_last();
    let last = packets.last();
    assert(last == packets[packets.len() - 1]);
    assert(incoming::phase(last) == 2);
    assert forall|i: int| 0 <= i < rest.len() implies #[trigger] rest[i] == packets[i] by {}
    let before = incoming::handle_all(around, start, rest);
    let done = incoming::handle_all(around, start, packets);
    lemma_despawn_stage(around, start, rest);
    if rest.contains(despawn) {
        lemma_despawned(around, start, rest, network_id, entity);
        let i = before.commands.index_of(CommandView::Despawn { entity });
        assert(done.commands[i] == before.commands[i]);
    } else {
        let k = packets.index_of(despawn);
        if k < rest.len() {
            assert(rest[k] == despawn);
        }
        assert(last == despawn);
        lemma_others_stay(around, start, rest, network_id, entity);
        assert(done.commands[done.commands.len() - 1] == (CommandView::Despawn { entity }));
    }
}

/// Despawning other entities leaves an entity known.
proof fn lemma_others_stay<C, R, P>(
    around: Surroundings<C, R, P>,
    start: Progress,
    packets: Seq<PacketView>,
    network_id: u64,
    entity: Entity,
)
    requires
        forall|i: int| 0 <= i < packets.len() ==> incoming::phase(#[trigger] packets[i]) == 2,
        !packets.contains(PacketView::DespawnEntity { network_id }),
        is_indexed_apart(start.index, NetworkId(network_id)),
        start.index.entity(NetworkId(network_id)) == Some(entity),
    ensures
        incoming::handle_all(around, start, packets).index.entity(NetworkId(network_id)) == Some(
            entity,
        ),
        is_indexed_apart(
            incoming::handle_all(around, start, packets).index,
            NetworkId(network_id),
        ),
    decreases packets.len(),
{
    if packets.len() > 0 {
        let rest = packets.drop_last();
        let last = packets[packets.len() - 1];
        assert(incoming::phase(last) == 2);
        assert(packets.contains(last));
        assert forall|i: int| 0 <= i < rest.len() implies #[trigger] rest[i] == packets[i] by {}
        assert(!rest.contains(PacketView::DespawnEntity { network_id })) by {
            if rest.contains(PacketView::DespawnEntity { network_id }) {
                let i = rest.index_of(PacketView::DespawnEntity { network_id });
                assert(packets[i] == PacketView::DespawnEntity { network_id });
            }
        }
        lemma_despawn_stage(around, start, rest);
        lemma_others_stay(around, start, rest, network_id, entity);
    }
}

/// An entity that a frame despawns is removed from the entity store and from
/// the index, and its streams start afresh, even where the same frame spawned
/// or updated it; an entity that it does not despawn stays known. The entity's
/// network ID is mixed up with no other one.
pub proof fn law_despawns_remove_what_they_name<C, R, P>(
    world: WorldView<C, R, P>,
    fresh: Seq<Entity>,
    network_id: u64,
    entity: Entity,
)
    requires
        is_indexed_apart(world.after_spawns(fresh).index, NetworkId(network_id)),
        world.after_spawns(fresh).index.entity(NetworkId(network_id)) == Some(entity),
    ensures
        world.incoming().contains(PacketView::DespawnEntity { network_id }) ==> {
            let after = world.after_incoming(fresh);
            &&& after.index.entity(NetworkId(network_id)) is None
            &&& after.index.network_id(entity) is None
            &&& world.handled(fresh).commands.contains(CommandView::Despawn { entity })
            &&& forall|component: u64|
                !(#[trigger] after.sequence.latest_incoming.dom().contains(
                    (network_id, component),
                ))
        },
        !world.incoming().contains(PacketView::DespawnEntity { network_id })
            ==> world.after_incoming(fresh).index.entity(NetworkId(network_id)) == Some(entity),
        world.after_spawns(fresh).index.consistent() ==> world.after_incoming(
            fresh,
        ).index.consistent(),
{
    let all = world.incoming();
    let around = world.surroundings(fresh);
    let third = incoming::of_phase(all, 2);
    incoming::lemma_of_phase(all, 1);
    incoming::lemma_of_phase(all, 2);
    lemma_stages(world, fresh);
    lemma_update_stage(around, world.after_spawns(fresh), incoming::of_phase(all, 1));
    lemma_despawn_stage(around, world.after_updates(fresh), third);
    lemma_phase_contains(all, PacketView::DespawnEntity { network_id });
    if all.contains(PacketView::DespawnEntity { network_id }) {
        lemma_despawned(around, world.after_updates(fresh), third, network_id, entity);
    } else {
        lemma_others_stay(around, world.after_updates(fresh), third, network_id, entity);
    }
}

/// Whether spawn packets bring new network IDs, each once, and meet as many
/// empty entities that the index does not hold.
pub open spec fn clean_spawns(
    index: IndexView,
    spawns: Seq<PacketView>,
    fresh: Seq<Entity>,
) -> bool {
    &&& spawns.len() <= fresh.len()
    &&& fresh.no_duplicates()
    &&& forall|i: int|
        0 <= i < fresh.len() ==> !index.by_entity.dom().contains(#[trigger] fresh[i])
    &&& forall|i: int|
        0 <= i < spawns.len() ==> !index.by_network.dom().contains(
            NetworkId((#[trigger] spawns[i])->SpawnEntity_network_id),
        )
    &&& forall|i: int, j: int|
        0 <= i < j < spawns.len() ==> (#[trigger] spawns[i])->SpawnEntity_network_id != (
        #[trigger] spawns[j])->SpawnEntity_network_id
}

/// Clean spawns keep the index consistent.
proof fn lemma_clean_spawns<C, R, P>(
    around: Surroundings<C, R, P>,
    start: Progress,
    packets: Seq<PacketView>,
)
    requires
        forall|i: int| 0 <= i < packets.len() ==> incoming::phase(#[trigger] packets[i]) == 0,
        start.index.consistent(),
        start.taken == 0,
        clean_spawns(start.index, packets, around.fresh),
    ensures
        ({
            let done = incoming::handle_all(around, start, packets);
            &&& done.index.consistent()
            &&& done.taken == packets.len()
            &&& forall|i: int|
                0 <= i < packets.len() ==> done.index.entity(
                    NetworkId((#[trigger] packets[i])->SpawnEntity_network_id),
                ) == Some(around.fresh[i])
            &&& forall|i: int|
                packets.len() <= i < around.fresh.len() ==> !done.index.by_entity.dom().contains(
                    #[trigger] around.fresh[i],
                )
            &&& forall|id: NetworkId| #[trigger]
                done.index.by_network.dom().contains(id) ==> start.index.by_network.dom().contains(
                    id,
                ) || exists|i: int|
                    0 <= i < packets.len() && (#[trigger] packets[i])->SpawnEntity_network_id
                        == id.0
        }),
    decreases packets.len(),
{
    if packets.len() > 0 {
        let rest = packets.drop_last();
        let last = packets[packets.len() - 1];
        assert(incoming::phase(last) == 0);
        assert forall|i: int| 0 <= i < rest.len() implies #[trigger] rest[i] == packets[i] by {}
        lemma_clean_spawns(around, start, rest);
        let before = incoming::handle_all(around, start, rest);
        let done = incoming::handle_all(around, start, packets);
        let id = NetworkId(last->SpawnEntity_network_id);
        let entity = around.fresh[rest.len() as int];
        assert(done.index == before.index.insert(id, entity));
        assert(before.index.entity(id) is None) by {
            if before.index.by_network.dom().contains(id) {
                let i = choose|i: int|
                    0 <= i < rest.len() && (#[trigger] rest[i])->SpawnEntity_network_id == id.0;
                assert(packets[i]->SpawnEntity_network_id
                    != packets[packets.len() - 1]->SpawnEntity_network_id);
            }
        }
        replicated::law_index_stays_consistent(before.index, id, entity);
        assert forall|i: int| 0 <= i < packets.len() implies done.index.entity(
            NetworkId((#[trigger] packets[i])->SpawnEntity_network_id),
        ) == Some(around.fresh[i]) by {
            if i < rest.len() {
                assert(rest[i] == packets[i]);
            }
        }
        assert forall|other: NetworkId| #[trigger]
            done.index.by_network.dom().contains(other) implies start.index.by_network.dom().contains(
            other,
        ) || exists|i: int|
            0 <= i < packets.len() && (#[trigger] packets[i])->SpawnEntity_network_id
                == other.0 by {
            if other == id {
                assert(packets[packets.len() - 1]->SpawnEntity_network_id == other.0);
            } else {
                assert(before.index.by_network.dom().contains(other));
                if !start.index.by_network.dom().contains(other) {
                    let i = choose|i: int|
                        0 <= i < rest.len() && (#[trigger] rest[i])->SpawnEntity_network_id
                            == other.0;
                    assert(packets[i]->SpawnEntity_network_id == other.0);
                }
            }
        }
    }
}

/// Where the spawn packets of a frame bring unused network IDs, each once, and
/// take unused entities, each entity is found under its ID when the updates'
/// turn comes, and the two directions of the index agree throughout.
pub proof fn law_frame_keeps_index_consistent<C, R, P>(
    world: WorldView<C, R, P>,
    fresh: Seq<Entity>,
)
    requires
        world.index.consistent(),
        clean_spawns(world.index, incoming::of_phase(world.incoming(), 0), fresh),
    ensures
        forall|i: int|
            0 <= i < incoming::of_phase(world.incoming(), 0).len() ==> world.after_spawns(
                fresh,
            ).index.entity(
                NetworkId(
                    (#[trigger] incoming::of_phase(
                        world.incoming(),
                        0,
                    )[i])->SpawnEntity_network_id,
                ),
            ) == Some(fresh[i]),
        world.after_spawns(fresh).index.consistent(),
        world.after_incoming(fresh).index.consistent(),
{
    let all = world.incoming();
    let around = world.surroundings(fresh);
    incoming::lemma_of_phase(all, 0);
    incoming::lemma_of_phase(all, 1);
    incoming::lemma_of_phase(all, 2);
    lemma_stages(world, fresh);
    lemma_clean_spawns(
        around,
        Progress::start(world.index, world.sequence),
        incoming::of_phase(all, 0),
    );
    lemma_update_stage(around, world.after_spawns(fresh), incoming::of_phase(all, 1));
    lemma_despawn_stage(around, world.after_updates(fresh), incoming::of_phase(all, 2));
}

/// The commands that apply resources.
pub open spec fn resource_commands(commands: Seq<CommandView>) -> Seq<CommandView> {
    commands.filter(|command: CommandView| command is ApplyResource)
}

/// The commands that the resource updates among the packets call for.
pub open spec fn resource_updates<R>(
    resources: crate::sync::registry::TableView<R>,
    packets: Seq<PacketView>,
) -> Seq<CommandView> {
    packets.filter_map(
        |packet: PacketView|
            match packet {
                PacketView::UpdateResource { resource_wire_id, bytes } if resources.lookup(
                    resource_wire_id,
                ) is Some => Some(CommandView::ApplyResource { resource_wire_id, bytes }),
                _ => None,
            },
    )
}

/// Each packet adds the resource command that it calls for.
proof fn lemma_resource_commands<C, R, P>(
    around: Surroundings<C, R, P>,
    start: Progress,
    packets: Seq<PacketView>,
)
    ensures
        resource_commands(incoming::handle_all(around, start, packets).commands)
            == resource_commands(start.commands) + resource_updates(around.resources, packets),
    decreases packets.len(),
{
    reveal(Seq::filter);
    reveal(Seq::filter_map);
    if packets.len() > 0 {
        let rest = packets.drop_last();
        lemma_resource_commands(around, start, rest);
        let before = incoming::handle_all(around, start, rest).commands;
        let done = incoming::handle_all(around, start, packets).commands;
        if done.len() > before.len() {
            assert(done.drop_last() =~= before);
        } else {
            assert(done =~= before);
        }
    }
    assert(resource_commands(incoming::handle_all(around, start, packets).commands)
        =~= resource_commands(start.commands) + resource_updates(around.resources, packets));
}

/// Every update of a registered resource that arrived is applied, in order of
/// arrival, and no other resource is.
pub proof fn law_resource_updates_are_applied_in_order<C, R, P>(
    world: WorldView<C, R, P>,
    fresh: Seq<Entity>,
)
    ensures
        resource_commands(world.handled(fresh).commands) == resource_updates(
            world.resources,
            world.incoming(),
        ),
{
    reveal(Seq::filter);
    let all = world.incoming();
    let around = world.surroundings(fresh);
    lemma_resource_commands(
        around,
        Progress::start(world.index, world.sequence),
        incoming::by_phase(all),
    );
    lemma_resource_updates_by_phase(world.resources, all);
    assert(resource_commands(Seq::<CommandView>::empty()) =~= Seq::<CommandView>::empty());
    assert(resource_commands(world.handled(fresh).commands) =~= resource_updates(
        world.resources,
        all,
    ));
}

/// Joined lists call for the joined commands.
proof fn lemma_resource_updates_joined<R>(
    resources: crate::sync::registry::TableView<R>,
    first: Seq<PacketView>,
    second: Seq<PacketView>,
)
    ensures
        resource_updates(resources, first + second) == resource_updates(resources, first)
            + resource_updates(resources, second),
    decreases second.len(),
{
    reveal(Seq::filter_map);
    if second.len() == 0 {
        assert(first + second =~= first);
    } else {
        lemma_resource_updates_joined(resources, first, second.drop_last());
        assert((first + second).drop_last() =~= first + second.drop_last());
    }
    assert(resource_updates(resources, first + second) =~= resource_updates(resources, first)
        + resource_updates(resources, second));
}

/// Grouping leaves the resource updates in order.
proof fn lemma_resource_updates_by_phase<R>(
    resources: crate::sync::registry::TableView<R>,
    packets: Seq<PacketView>,
)
    ensures
        resource_updates(resources, incoming::by_phase(packets)) == resource_updates(
            resources,
            packets,
        ),
{
    let first = incoming::of_phase(packets, 0);
    let second = incoming::of_phase(packets, 1);
    let third = incoming::of_phase(packets, 2);
    lemma_resource_updates_joined(resources, first + second, third);
    lemma_resource_updates_joined(resources, first, second);
    lemma_resource_updates_of_phase(resources, packets, 0);
    lemma_resource_updates_of_phase(resources, packets, 1);
    lemma_resource_updates_of_phase(resources, packets, 2);
    assert(resource_updates(resources, incoming::by_phase(packets)) =~= resource_updates(
        resources,
        packets,
    ));
}

/// Only the middle group holds resource updates.
proof fn lemma_resource_updates_of_phase<R>(
    resources: crate::sync::registry::TableView<R>,
    packets: Seq<PacketView>,
    wanted: int,
)
    ensures
        resource_updates(resources, incoming::of_phase(packets, wanted)) == if wanted == 1 {
            resource_updates(resources, packets)
        } else {
            Seq::empty()
        },
    decreases packets.len(),
{
    reveal(Seq::filter);
    reveal(Seq::filter_map);
    if packets.len() > 0 {
        lemma_resource_updates_of_phase(resources, packets.drop_last(), wanted);
        let kept = incoming::of_phase(packets.drop_last(), wanted);
        assert(kept.push(packets.last()).drop_last() =~= kept);
    }
}

} // verus!
