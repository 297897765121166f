//! Application of incoming packets.
use vstd::prelude::*;

use crate::lists;
use crate::netres;
use crate::netres::{NetView, PacketView, ReplicationPacket};
use crate::replicated::{Entity, EntityIndex, IndexView, NetworkId};
use crate::sync::registry::{PrefabRegistry, SyncRegistry, SyncResourceRegistry, TableView};
use crate::sync::sequence::{ComponentUpdateSequenceState, SequenceView};
use crate::sync::world::{ReplicationWorld, WorldView};

verus! {

/// A change to the entity store that a packet calls for.
#[derive(Debug)]
pub enum WorldCommand {
    /// Mark an empty entity as replicated under the network ID. With a prefab,
    /// apply the prefab's handler and tag the entity with the prefab.
    Spawn { entity: Entity, network_id: NetworkId, prefab: Option<u64> },
    /// Remove an entity.
    Despawn { entity: Entity },
    /// Hand a serialised component to the handler of its type.
    ApplyComponent { entity: Entity, component_wire_id: u64, bytes: Vec<u8> },
    /// Hand a serialised resource to the handler of its type.
    ApplyResource { resource_wire_id: u64, bytes: Vec<u8> },
}

/// What a [`WorldCommand`] says, its payload as a sequence of bytes.
#[verifier::ext_equal]
pub enum CommandView {
    Spawn { entity: Entity, network_id: NetworkId, prefab: Option<u64> },
    Despawn { entity: Entity },
    ApplyComponent { entity: Entity, component_wire_id: u64, bytes: Seq<u8> },
    ApplyResource { resource_wire_id: u64, bytes: Seq<u8> },
}

impl View for WorldCommand {
    type V = CommandView;

    open spec fn view(&self) -> CommandView {
        match *self {
            WorldCommand::Spawn { entity, network_id, prefab } => {
                CommandView::Spawn { entity, network_id, prefab }
            },
            WorldCommand::Despawn { entity } => CommandView::Despawn { entity },
            WorldCommand::ApplyComponent { entity, component_wire_id, bytes } => {
                CommandView::ApplyComponent { entity, component_wire_id, bytes: bytes@ }
            },
            WorldCommand::ApplyResource { resource_wire_id, bytes } => {
                CommandView::ApplyResource { resource_wire_id, bytes: bytes@ }
            },
        }
    }
}

/// What each command of a list says.
pub open spec fn command_views(commands: Seq<WorldCommand>) -> Seq<CommandView> {
    commands.map_values(|command: WorldCommand| command@)
}

/// The phase of a frame in which a packet is handled: spawns first, then
/// updates, then despawns.
pub open spec fn phase(packet: PacketView) -> int {
    match packet {
        PacketView::SpawnEntity { .. } => 0,
        PacketView::UpdateComponent { .. } => 1,
        PacketView::UpdateResource { .. } => 1,
        PacketView::DespawnEntity { .. } => 2,
    }
}

/// The packets of one phase, in order of arrival.
pub open spec fn of_phase(packets: Seq<PacketView>, wanted: int) -> Seq<PacketView> {
    packets.filter(|packet: PacketView| phase(packet) == wanted)
}

/// The packets in the order in which they are handled.
pub open spec fn by_phase(packets: Seq<PacketView>) -> Seq<PacketView> {
    of_phase(packets, 0) + of_phase(packets, 1) + of_phase(packets, 2)
}

/// What decides how packets are handled and does not change meanwhile.
#[verifier::reject_recursive_types(C)]
#[verifier::reject_recursive_types(R)]
#[verifier::reject_recursive_types(P)]
pub struct Surroundings<C, R, P> {
    pub components: TableView<C>,
    pub resources: TableView<R>,
    pub prefabs: TableView<P>,
    /// The empty entities that spawn packets take, in order.
    pub fresh: Seq<Entity>,
}

/// What changes while packets are handled.
#[verifier::ext_equal]
pub struct Progress {
    pub index: IndexView,
    pub sequence: SequenceView,
    /// Updates that wait for their entity.
    pub deferred: Seq<PacketView>,
    pub commands: Seq<CommandView>,
    /// How many of the empty entities were taken.
    pub taken: nat,
}

impl Progress {
    /// The progress before the first packet.
    pub open spec fn start(index: IndexView, sequence: SequenceView) -> Progress {
        Progress {
            index,
            sequence,
            deferred: Seq::empty(),
            commands: Seq::empty(),
            taken: 0,
        }
    }

    /// The progress with one more command.
    pub open spec fn command(self, command: CommandView) -> Progress {
        Progress { commands: self.commands.push(command), ..self }
    }
}

/// The prefab that a spawn packet calls for: none for zero, and none for an
/// identifier under which nothing is registered.
pub open spec fn known_prefab<P>(prefabs: TableView<P>, prefab_wire_id: u64) -> Option<u64> {
    if prefab_wire_id != 0 && prefabs.lookup(prefab_wire_id) is Some {
        Some(prefab_wire_id)
    } else {
        None
    }
}

/// The progress after one more packet.
pub open spec fn handle<C, R, P>(
    around: Surroundings<C, R, P>,
    progress: Progress,
    packet: PacketView,
) -> Progress {
    match packet {
        PacketView::SpawnEntity { network_id, prefab_wire_id } => {
            let entity = around.fresh[progress.taken as int];
            let prefab = known_prefab(around.prefabs, prefab_wire_id);
            Progress {
                index: progress.index.insert(NetworkId(network_id), entity),
                taken: progress.taken + 1,
                ..progress.command(
                    CommandView::Spawn { entity, network_id: NetworkId(network_id), prefab },
                )
            }
        },
        PacketView::DespawnEntity { network_id } => match progress.index.entity(
            NetworkId(network_id),
        ) {
            Some(entity) => Progress {
                index: progress.index.remove_entity(entity),
                sequence: progress.sequence.forget(network_id),
                ..progress.command(CommandView::Despawn { entity })
            },
            None => progress,
        },
        PacketView::UpdateComponent { network_id, component_wire_id, sequence, bytes } => {
            let stream = (network_id, component_wire_id);
            if around.components.lookup(component_wire_id) is None {
                progress
            } else {
                match progress.index.entity(NetworkId(network_id)) {
                    None => Progress { deferred: progress.deferred.push(packet), ..progress },
                    Some(entity) => {
                        let noted = Progress {
                            sequence: progress.sequence.arrive(stream, sequence),
                            ..progress
                        };
                        if progress.sequence.is_fresh(stream, sequence) {
                            noted.command(
                                CommandView::ApplyComponent { entity, component_wire_id, bytes },
                            )
                        } else {
                            noted
                        }
                    },
                }
            }
        },
        PacketView::UpdateResource { resource_wire_id, bytes } => if around.resources.lookup(
            resource_wire_id,
        ) is Some {
            progress.command(CommandView::ApplyResource { resource_wire_id, bytes })
        } else {
            progress
        },
    }
}

/// The progress after several packets in order.
pub open spec fn handle_all<C, R, P>(
    around: Surroundings<C, R, P>,
    progress: Progress,
    packets: Seq<PacketView>,
) -> Progress
    decreases packets.len(),
{
    if packets.len() == 0 {
        progress
    } else {
        handle(around, handle_all(around, progress, packets.drop_last()), packets.last())
    }
}

impl<C, R, P> WorldView<C, R, P> {
    /// The packets to handle: those that wait, then those that were received.
    pub open spec fn incoming(self) -> Seq<PacketView> {
        self.pending + self.net.inbox
    }

    /// What decides how the packets are handled.
    pub open spec fn surroundings(self, fresh: Seq<Entity>) -> Surroundings<C, R, P> {
        Surroundings {
            components: self.components,
            resources: self.resources,
            prefabs: self.prefabs,
            fresh,
        }
    }

    /// The progress when all incoming packets have been handled.
    pub open spec fn handled(self, fresh: Seq<Entity>) -> Progress {
        handle_all(
            self.surroundings(fresh),
            Progress::start(self.index, self.sequence),
            by_phase(self.incoming()),
        )
    }

    /// The state when all incoming packets have been handled.
    pub open spec fn after_incoming(self, fresh: Seq<Entity>) -> WorldView<C, R, P> {
        WorldView {
            net: NetView { inbox: Seq::empty(), ..self.net },
            index: self.handled(fresh).index,
            sequence: self.handled(fresh).sequence,
            pending: self.handled(fresh).deferred,
            ..self
        }
    }
}

/// Puts packets into the order in which they are handled.
pub fn order_packets(packets: Vec<ReplicationPacket>) -> (ordered: Vec<ReplicationPacket>)
    ensures
        netres::packet_views(ordered@) == by_phase(netres::packet_views(packets@)),
{
    let ghost views = netres::packet_views(packets@);
    let mut spawns: Vec<ReplicationPacket> = Vec::new();
    let mut updates: Vec<ReplicationPacket> = Vec::new();
    let mut despawns: Vec<ReplicationPacket> = Vec::new();
    proof {
        reveal(Seq::filter);
    }
    assert(netres::packet_views(spawns@) =~= of_phase(views.take(0), 0));
    assert(netres::packet_views(updates@) =~= of_phase(views.take(0), 1));
    assert(netres::packet_views(despawns@) =~= of_phase(views.take(0), 2));
    for packet in iter: packets
        invariant
            iter.seq() == packets@,
            views == netres::packet_views(packets@),
            netres::packet_views(spawns@) == of_phase(views.take(iter.index() as int), 0),
            netres::packet_views(updates@) == of_phase(views.take(iter.index() as int), 1),
            netres::packet_views(despawns@) == of_phase(views.take(iter.index() as int), 2),
    {
        let ghost done = iter.index() as int;
        let ghost view = packet@;
        let ghost before = (spawns@, updates@, despawns@);
        proof {
            reveal(Seq::filter);
        }
        assert(views.take(done + 1).drop_last() =~= views.take(done));
        match packet {
            ReplicationPacket::SpawnEntity { .. } => {
                spawns.push(packet);
                assert(netres::packet_views(spawns@) =~= netres::packet_views(before.0).push(view));
            },
            ReplicationPacket::DespawnEntity { .. } => {
                despawns.push(packet);
                assert(netres::packet_views(despawns@) =~= netres::packet_views(before.2).push(
                    view,
                ));
            },
            _ => {
                updates.push(packet);
                assert(netres::packet_views(updates@) =~= netres::packet_views(before.1).push(view));
            },
        }
    }
    assert(views.take(views.len() as int) =~= views);
    let mut ordered = spawns;
    ordered.append(&mut updates);
    ordered.append(&mut despawns);
    assert(netres::packet_views(ordered@) =~= by_phase(views));
    ordered
}

/// The progress that the given parts make up.
pub open spec fn progress_of(
    index: EntityIndex,
    sequence: ComponentUpdateSequenceState,
    deferred: Seq<ReplicationPacket>,
    commands: Seq<WorldCommand>,
    taken: usize,
) -> Progress {
    Progress {
        index: index@,
        sequence: sequence@,
        deferred: netres::packet_views(deferred),
        commands: command_views(commands),
        taken: taken as nat,
    }
}

/// Handles one packet.
fn apply_packet<C: Copy, R: Copy, P: Copy>(
    packet: ReplicationPacket,
    components: &SyncRegistry<C>,
    resources: &SyncResourceRegistry<R>,
    prefabs: &PrefabRegistry<P>,
    fresh: &Vec<Entity>,
    index: &mut EntityIndex,
    sequence: &mut ComponentUpdateSequenceState,
    deferred: &mut Vec<ReplicationPacket>,
    commands: &mut Vec<WorldCommand>,
    taken: &mut usize,
)
    requires
        packet@ is SpawnEntity ==> *old(taken) < fresh@.len(),
    ensures
        progress_of(
            *final(index),
            *final(sequence),
            final(deferred)@,
            final(commands)@,
            *final(taken),
        ) == handle(
            Surroundings {
                components: components@,
                resources: resources@,
                prefabs: prefabs@,
                fresh: fresh@,
            },
            progress_of(
                *old(index),
                *old(sequence),
                old(deferred)@,
                old(commands)@,
                *old(taken),
            ),
            packet@,
        ),
{
    let ghost earlier = commands@;
    let ghost waiting = deferred@;
    let ghost view = packet@;
    match packet {
        ReplicationPacket::SpawnEntity { network_id, prefab_wire_id } => {
            let entity = fresh[*taken];
            assert(*taken < fresh.len());
            *taken = *taken + 1;
            index.insert(NetworkId(network_id), entity);
            let prefab = if prefab_wire_id != 0 && prefabs.by_wire_id(prefab_wire_id).is_some() {
                Some(prefab_wire_id)
            } else {
                None
            };
            let command = WorldCommand::Spawn {
                entity,
                network_id: NetworkId(network_id),
                prefab,
            };
            commands.push(command);
            assert(command_views(commands@) =~= command_views(earlier).push(command@));
        },
        ReplicationPacket::DespawnEntity { network_id } => {
            if let Some(entity) = index.entity(NetworkId(network_id)) {
                index.remove_entity(entity);
                sequence.forget_network_id(network_id);
                let command = WorldCommand::Despawn { entity };
                commands.push(command);
                assert(command_views(commands@) =~= command_views(earlier).push(command@));
            }
        },
        ReplicationPacket::UpdateComponent {
            network_id,
            component_wire_id,
            sequence: number,
            bytes,
        } => {
            let entity = index.entity(NetworkId(network_id));
            let registered = components.by_wire_id(component_wire_id).is_some();
            match (entity, registered) {
                (Some(entity), true) => {
                    if sequence.accept_incoming(network_id, component_wire_id, number) {
                        let command = WorldCommand::ApplyComponent {
                            entity,
                            component_wire_id,
                            bytes,
                        };
                        commands.push(command);
                        assert(command_views(commands@) =~= command_views(earlier).push(command@));
                    }
                },
                (None, true) => {
                    let update = ReplicationPacket::UpdateComponent {
                        network_id,
                        component_wire_id,
                        sequence: number,
                        bytes,
                    };
                    deferred.push(update);
                    assert(netres::packet_views(deferred@) =~= netres::packet_views(waiting).push(
                        view,
                    ));
                },
                _ => {},
            }
        },
        ReplicationPacket::UpdateResource { resource_wire_id, bytes } => {
            if resources.by_wire_id(resource_wire_id).is_some() {
                let command = WorldCommand::ApplyResource { resource_wire_id, bytes };
                commands.push(command);
                assert(command_views(commands@) =~= command_views(earlier).push(command@));
            }
        },
    }
}

/// Applies queued incoming replication packets.
///
/// Returns the changes to make to the entity store, in order. The spawn
/// packets take the entities of `fresh`, which are empty, one after the other.
pub fn apply_incoming_packets<C: Copy, R: Copy, P: Copy>(
    world: &mut ReplicationWorld<C, R, P>,
    fresh: &Vec<Entity>,
) -> (commands: Vec<WorldCommand>)
    requires
        old(world).wf(),
        netres::spawns(old(world)@.net.inbox).len() <= fresh@.len(),
    ensures
        final(world).wf(),
        final(world)@ == old(world)@.after_incoming(fresh@),
        command_views(commands@) == old(world)@.handled(fresh@).commands,
{
    let mut packets = world.pending.replace(Vec::new());
    let mut received = world.net.drain_inbox();
    let ghost parts = (netres::packet_views(packets@), netres::packet_views(received@));
    packets.append(&mut received);
    assert(netres::packet_views(packets@) =~= parts.0 + parts.1);
    let packets = order_packets(packets);
    let ghost ordered = by_phase(old(world)@.incoming());
    let ghost around = old(world)@.surroundings(fresh@);
    let ghost start = Progress::start(old(world)@.index, old(world)@.sequence);
    proof {
        lemma_spawns_of_incoming(old(world)@.pending, old(world)@.net.inbox);
    }
    let mut deferred: Vec<ReplicationPacket> = Vec::new();
    let mut commands: Vec<WorldCommand> = Vec::new();
    let mut taken: usize = 0;
    assert(netres::packet_views(deferred@) =~= Seq::<PacketView>::empty());
    assert(command_views(commands@) =~= Seq::<CommandView>::empty());
    assert(ordered.take(0) =~= Seq::<PacketView>::empty());
    for packet in iter: packets
        invariant
            iter.seq() == packets@,
            ordered == netres::packet_views(packets@),
            around == old(world)@.surroundings(fresh@),
            start == Progress::start(old(world)@.index, old(world)@.sequence),
            netres::spawns(ordered).len() <= fresh@.len(),
            old(world).wf(),
            world.components == old(world).components,
            world.resources == old(world).resources,
            world.prefabs == old(world).prefabs,
            world.next_network_id == old(world).next_network_id,
            world.net@ == (NetView { inbox: Seq::empty(), ..old(world)@.net }),
            progress_of(world.index, world.sequence, deferred@, commands@, taken) == handle_all(
                around,
                start,
                ordered.take(iter.index() as int),
            ),
    {
        let ghost done = iter.index() as int;
        assert(ordered.take(done + 1).drop_last() =~= ordered.take(done));
        proof {
            lemma_taken(around, start, ordered.take(done));
            lemma_taken(around, start, ordered.take(done + 1));
            lemma_prefix_spawns(ordered, done + 1);
        }
        apply_packet(
            packet,
            &world.components,
            &world.resources,
            &world.prefabs,
            fresh,
            &mut world.index,
            &mut world.sequence,
            &mut deferred,
            &mut commands,
            &mut taken,
        );
    }
    assert(ordered.take(packets@.len() as int) =~= ordered);
    proof {
        lemma_deferred(around, start, ordered);
    }
    world.pending.replace(deferred);
    commands
}

/// All packets of a phase are of that phase.
pub(crate) proof fn lemma_of_phase(packets: Seq<PacketView>, wanted: int)
    ensures
        forall|i: int|
            0 <= i < of_phase(packets, wanted).len() ==> phase(
                #[trigger] of_phase(packets, wanted)[i],
            ) == wanted,
{
    broadcast use vstd::seq_lib::group_filter_ensures;

    let pred = |packet: PacketView| phase(packet) == wanted;
    assert forall|i: int| 0 <= i < of_phase(packets, wanted).len() implies phase(
        #[trigger] of_phase(packets, wanted)[i],
    ) == wanted by {
        assert(pred(packets.filter(pred)[i]));
    }
}

/// The spawn packets among the packets to handle are those received.
proof fn lemma_spawns_of_incoming(pending: Seq<PacketView>, inbox: Seq<PacketView>)
    requires
        crate::sync::world::only_component_updates(pending),
    ensures
        netres::spawns(by_phase(pending + inbox)) == netres::spawns(inbox),
{
    let is_spawn = |packet: PacketView| packet is SpawnEntity;
    let all = pending + inbox;
    let first = of_phase(all, 0);
    let second = of_phase(all, 1);
    let third = of_phase(all, 2);
    lemma_of_phase(all, 0);
    lemma_of_phase(all, 1);
    lemma_of_phase(all, 2);
    lists::lemma_filter_extremes(first, is_spawn);
    lists::lemma_filter_extremes(second, is_spawn);
    lists::lemma_filter_extremes(third, is_spawn);
    Seq::filter_distributes_over_add(first + second, third, is_spawn);
    Seq::filter_distributes_over_add(first, second, is_spawn);
    assert(netres::spawns(by_phase(all)) =~= first);
    lists::lemma_filter_agrees(all, |packet: PacketView| phase(packet) == 0, is_spawn);
    Seq::filter_distributes_over_add(pending, inbox, is_spawn);
    lists::lemma_filter_extremes(pending, is_spawn);
    assert(first =~= netres::spawns(inbox));
}

/// A prefix holds no more spawn packets than the whole.
proof fn lemma_prefix_spawns(packets: Seq<PacketView>, end: int)
    requires
        0 <= end <= packets.len(),
    ensures
        netres::spawns(packets.take(end)).len() <= netres::spawns(packets).len(),
{
    let is_spawn = |packet: PacketView| packet is SpawnEntity;
    assert(packets =~= packets.take(end) + packets.skip(end));
    Seq::filter_distributes_over_add(packets.take(end), packets.skip(end), is_spawn);
}

/// Each spawn packet takes one empty entity.
proof fn lemma_taken<C, R, P>(
    around: Surroundings<C, R, P>,
    start: Progress,
    packets: Seq<PacketView>,
)
    ensures
        handle_all(around, start, packets).taken == start.taken + netres::spawns(packets).len(),
    decreases packets.len(),
{
    reveal(Seq::filter);
    if packets.len() > 0 {
        lemma_taken(around, start, packets.drop_last());
    }
}

/// Only component updates are put off.
proof fn lemma_deferred<C, R, P>(
    around: Surroundings<C, R, P>,
    start: Progress,
    packets: Seq<PacketView>,
)
    requires
        crate::sync::world::only_component_updates(start.deferred),
    ensures
        crate::sync::world::only_component_updates(handle_all(around, start, packets).deferred),
    decreases packets.len(),
{
    if packets.len() > 0 {
        lemma_deferred(around, start, packets.drop_last());
    }
}

/// The packets to handle are those that wait and then those that were received;
/// spawns come first, then updates of components and resources, then despawns,
/// each kind in order.
pub proof fn law_packets_are_handled_in_three_turns<C, R, P>(world: WorldView<C, R, P>)
    ensures
        world.incoming() == world.pending + world.net.inbox,
        by_phase(world.incoming()) == world.incoming().filter(
            |packet: PacketView| packet is SpawnEntity,
        ) + world.incoming().filter(
            |packet: PacketView| packet is UpdateComponent || packet is UpdateResource,
        ) + world.incoming().filter(|packet: PacketView| packet is DespawnEntity),
{
    let all = world.incoming();
    lists::lemma_filter_agrees(
        all,
        |packet: PacketView| phase(packet) == 0,
        |packet: PacketView| packet is SpawnEntity,
    );
    lists::lemma_filter_agrees(
        all,
        |packet: PacketView| phase(packet) == 1,
        |packet: PacketView| packet is UpdateComponent || packet is UpdateResource,
    );
    lists::lemma_filter_agrees(
        all,
        |packet: PacketView| phase(packet) == 2,
        |packet: PacketView| packet is DespawnEntity,
    );
}

/// Packets are handled one after the other, from the index and the numbers that
/// the state holds, with the registries as they are.
pub proof fn law_packets_are_handled_one_by_one<C, R, P>(
    world: WorldView<C, R, P>,
    fresh: Seq<Entity>,
    progress: Progress,
    packets: Seq<PacketView>,
    packet: PacketView,
)
    ensures
        ({
            let around = Surroundings {
                components: world.components,
                resources: world.resources,
                prefabs: world.prefabs,
                fresh,
            };
            let start = Progress {
                index: world.index,
                sequence: world.sequence,
                deferred: Seq::empty(),
                commands: Seq::empty(),
                taken: 0,
            };
            &&& handle_all(around, progress, Seq::empty()) == progress
            &&& handle_all(around, progress, packets.push(packet)) == handle(
                around,
                handle_all(around, progress, packets),
                packet,
            )
            &&& world.handled(fresh) == handle_all(around, start, by_phase(world.incoming()))
        }),
{
    assert(packets.push(packet).drop_last() =~= packets);
}

/// When all packets have been handled the inbox is empty, the index and the
/// numbers are what the packets made of them, what was put off waits, and
/// everything else is as it was.
pub proof fn law_frame_leaves_what_packets_made<C, R, P>(
    world: WorldView<C, R, P>,
    fresh: Seq<Entity>,
)
    ensures
        ({
            let after = world.after_incoming(fresh);
            let done = world.handled(fresh);
            &&& after.index == done.index
            &&& after.sequence == done.sequence
            &&& after.pending == done.deferred
            &&& after.net == (NetView { inbox: Seq::empty(), ..world.net })
            &&& after.next_network_id == world.next_network_id
            &&& after.components == world.components
            &&& after.resources == world.resources
            &&& after.prefabs == world.prefabs
        }),
{
}

/// A spawn packet marks the next empty entity as the entity of its network ID,
/// with its prefab where that is not zero and registered.
pub proof fn law_spawn_packet_takes_the_next_entity<C, R, P>(
    around: Surroundings<C, R, P>,
    progress: Progress,
    network_id: u64,
    prefab_wire_id: u64,
)
    ensures
        ({
            let entity = around.fresh[progress.taken as int];
            let done = handle(
                around,
                progress,
                PacketView::SpawnEntity { network_id, prefab_wire_id },
            );
            &&& done.index.by_network == progress.index.by_network.insert(
                NetworkId(network_id),
                entity,
            )
            &&& done.index.by_entity == progress.index.by_entity.insert(
                entity,
                NetworkId(network_id),
            )
            &&& done.taken == progress.taken + 1
            &&& done.sequence == progress.sequence
            &&& done.deferred == progress.deferred
            &&& done.commands == progress.commands.push(
                CommandView::Spawn {
                    entity,
                    network_id: NetworkId(network_id),
                    prefab: if prefab_wire_id != 0 && around.prefabs.by_wire_id.dom().contains(
                        prefab_wire_id,
                    ) {
                        Some(prefab_wire_id)
                    } else {
                        None
                    },
                },
            )
        }),
{
}

/// A despawn packet removes the entity of its network ID from the store and the
/// index and forgets its streams; for an unknown network ID it does nothing.
pub proof fn law_despawn_packet_removes_the_entity<C, R, P>(
    around: Surroundings<C, R, P>,
    progress: Progress,
    network_id: u64,
)
    ensures
        ({
            let done = handle(around, progress, PacketView::DespawnEntity { network_id });
            &&& progress.index.by_network.dom().contains(NetworkId(network_id)) ==> {
                let entity = progress.index.by_network[NetworkId(network_id)];
                &&& done.index == progress.index.remove_entity(entity)
                &&& done.sequence == progress.sequence.forget(network_id)
                &&& done.commands == progress.commands.push(CommandView::Despawn { entity })
                &&& done.deferred == progress.deferred
                &&& done.taken == progress.taken
            }
            &&& !progress.index.by_network.dom().contains(NetworkId(network_id)) ==> done
                == progress
        }),
{
}

/// An update of an unregistered component does nothing, and one without an
/// entity is put off. Any other is noted, and applied to its entity where it is
/// newer than what was noted of its stream.
pub proof fn law_component_packet_is_applied_where_newer<C, R, P>(
    around: Surroundings<C, R, P>,
    progress: Progress,
    network_id: u64,
    component_wire_id: u64,
    sequence: u64,
    bytes: Seq<u8>,
)
    ensures
        ({
            let packet = PacketView::UpdateComponent {
                network_id,
                component_wire_id,
                sequence,
                bytes,
            };
            let done = handle(around, progress, packet);
            let registered = around.components.by_wire_id.dom().contains(component_wire_id);
            let known = progress.index.by_network.dom().contains(NetworkId(network_id));
            let fresh = progress.sequence.is_fresh((network_id, component_wire_id), sequence);
            &&& !registered ==> done == progress
            &&& registered && !known ==> done == (Progress {
                deferred: progress.deferred.push(packet),
                ..progress
            })
            &&& registered && known && !fresh ==> done == progress
            &&& registered && known && fresh ==> done == (Progress {
                sequence: progress.sequence.arrive((network_id, component_wire_id), sequence),
                commands: progress.commands.push(
                    CommandView::ApplyComponent {
                        entity: progress.index.by_network[NetworkId(network_id)],
                        component_wire_id,
                        bytes,
                    },
                ),
                ..progress
            })
        }),
{
}

/// An update of a registered resource is applied, any other does nothing.
pub proof fn law_resource_packet_is_applied_where_registered<C, R, P>(
    around: Surroundings<C, R, P>,
    progress: Progress,
    resource_wire_id: u64,
    bytes: Seq<u8>,
)
    ensures
        ({
            let done = handle(
                around,
                progress,
                PacketView::UpdateResource { resource_wire_id, bytes },
            );
            &&& around.resources.by_wire_id.dom().contains(resource_wire_id) ==> done == (
            Progress {
                commands: progress.commands.push(
                    CommandView::ApplyResource { resource_wire_id, bytes },
                ),
                ..progress
            })
            &&& !around.resources.by_wire_id.dom().contains(resource_wire_id) ==> done == progress
        }),
{
}

/// A list of commands says what each of them says, in order, and a command says
/// what its fields hold.
pub proof fn law_commands_say_what_their_fields_hold(commands: Seq<WorldCommand>, i: int)
    requires
        0 <= i < commands.len(),
    ensures
        command_views(commands).len() == commands.len(),
        match commands[i] {
            WorldCommand::Spawn { entity, network_id, prefab } => command_views(commands)[i]
                == (CommandView::Spawn { entity, network_id, prefab }),
            WorldCommand::Despawn { entity } => command_views(commands)[i]
                == (CommandView::Despawn { entity }),
            WorldCommand::ApplyComponent { entity, component_wire_id, bytes } => command_views(
                commands,
            )[i] == (CommandView::ApplyComponent { entity, component_wire_id, bytes: bytes@ }),
            WorldCommand::ApplyResource { resource_wire_id, bytes } => command_views(commands)[i]
                == (CommandView::ApplyResource { resource_wire_id, bytes: bytes@ }),
        },
{
}

} // verus!
