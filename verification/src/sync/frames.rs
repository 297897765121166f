//! What a run of frames makes of the updates of one component.
use vstd::prelude::*;

use crate::lists;
use crate::netres::PacketView;
use crate::replicated::{Entity, NetworkId};
use crate::sync::delivery;
use crate::sync::incoming;
use crate::sync::incoming::{CommandView, Progress, Surroundings};
use crate::sync::sequence::SequenceView;
use crate::sync::world::WorldView;

verus! {

/// The number of the last update that was accepted from a stream.
pub open spec fn latest(sequence: SequenceView, stream: (u64, u64)) -> Option<u64> {
    if sequence.latest_incoming.dom().contains(stream) {
        Some(sequence.latest_incoming[stream])
    } else {
        None
    }
}

/// Whether a number is above the last accepted one.
pub open spec fn is_newer(latest: Option<u64>, number: u64) -> bool {
    match latest {
        Some(last) => last < number,
        None => true,
    }
}

/// The last accepted number when the given updates have been applied.
pub open spec fn latest_applied(latest: Option<u64>, applied: Seq<(u64, Seq<u8>)>) -> Option<u64> {
    if applied.len() == 0 {
        latest
    } else {
        Some(applied.last().0)
    }
}

/// The updates of a stream, each as its number and its bytes, that are applied
/// when packets arrive in order: those newer than all before them.
pub open spec fn applied_updates(
    start: Option<u64>,
    packets: Seq<PacketView>,
    stream: (u64, u64),
) -> Seq<(u64, Seq<u8>)>
    decreases packets.len(),
{
    if packets.len() == 0 {
        Seq::empty()
    } else {
        let earlier = applied_updates(start, packets.drop_last(), stream);
        match packets.last() {
            PacketView::UpdateComponent { network_id, component_wire_id, sequence, bytes } if (
            network_id,
            component_wire_id,
        ) == stream && is_newer(latest_applied(start, earlier), sequence) => earlier.push(
                (sequence, bytes),
            ),
            _ => earlier,
        }
    }
}

/// The commands that apply updates to an entity.
pub open spec fn as_commands(
    applied: Seq<(u64, Seq<u8>)>,
    entity: Entity,
    stream: (u64, u64),
) -> Seq<CommandView> {
    applied.map_values(|update: (u64, Seq<u8>)| delivery::applied(entity, stream, update.1))
}

/// The commands among others that apply a component type to an entity.
pub open spec fn commands_for(
    commands: Seq<CommandView>,
    entity: Entity,
    component: u64,
) -> Seq<CommandView> {
    commands.filter(|command: CommandView| delivery::applies_to(command, entity, component))
}

/// Whether an update is among the packets.
pub open spec fn arrived(
    packets: Seq<PacketView>,
    stream: (u64, u64),
    update: (u64, Seq<u8>),
) -> bool {
    packets.contains(delivery::update(stream, update.0, update.1))
}

/// The applied updates have increasing numbers, all above the start; the last
/// of them has the highest number that arrived.
pub proof fn law_applied_updates_increase(
    start: Option<u64>,
    packets: Seq<PacketView>,
    stream: (u64, u64),
)
    ensures
        ({
            let applied = applied_updates(start, packets, stream);
            &&& forall|i: int, j: int|
                0 <= i < j < applied.len() ==> (#[trigger] applied[i]).0 < (
                #[trigger] applied[j]).0
            &&& forall|i: int|
                0 <= i < applied.len() ==> is_newer(start, (#[trigger] applied[i]).0) && arrived(
                    packets,
                    stream,
                    applied[i],
                )
            &&& forall|i: int|
                0 <= i < packets.len() && delivery::of_stream(#[trigger] packets[i], stream)
                    ==> !is_newer(
                    latest_applied(start, applied),
                    packets[i]->UpdateComponent_sequence,
                )
        }),
    decreases packets.len(),
{
    let applied = applied_updates(start, packets, stream);
    if packets.len() > 0 {
        let rest = packets.drop_last();
        let earlier = applied_updates(start, rest, stream);
        law_applied_updates_increase(start, rest, stream);
        assert forall|i: int| 0 <= i < applied.len() implies is_newer(
            start,
            (#[trigger] applied[i]).0,
        ) && arrived(packets, stream, applied[i]) by {
            if i < earlier.len() {
                assert(applied[i] == earlier[i]);
                assert(arrived(rest, stream, earlier[i]));
                let packet = delivery::update(stream, earlier[i].0, earlier[i].1);
                assert(packets[rest.index_of(packet)] == packet);
            } else {
                assert(packets[packets.len() - 1] == delivery::update(
                    stream,
                    applied[i].0,
                    applied[i].1,
                ));
                if earlier.len() > 0 {
                    assert(is_newer(start, earlier[earlier.len() - 1].0));
                }
            }
        }
        assert forall|i: int, j: int| 0 <= i < j < applied.len() implies (#[trigger] applied[i]).0
            < (#[trigger] applied[j]).0 by {
            assert(applied[i] == earlier[i]);
            if j < earlier.len() {
                assert(applied[j] == earlier[j]);
            } else if i < earlier.len() - 1 {
                assert(earlier[i].0 < earlier[earlier.len() - 1].0);
            }
        }
        assert forall|i: int| 0 <= i < packets.len() && delivery::of_stream(
            #[trigger] packets[i],
            stream,
        ) implies !is_newer(
            latest_applied(start, applied),
            packets[i]->UpdateComponent_sequence,
        ) by {
            if i < rest.len() {
                assert(rest[i] == packets[i]);
            }
        }
    }
}

/// Only updates matter.
proof fn lemma_only_updates_matter(
    start: Option<u64>,
    packets: Seq<PacketView>,
    stream: (u64, u64),
)
    ensures
        applied_updates(start, incoming::of_phase(packets, 1), stream) == applied_updates(
            start,
            packets,
            stream,
        ),
    decreases packets.len(),
{
    reveal(Seq::filter);
    if packets.len() > 0 {
        let rest = packets.drop_last();
        lemma_only_updates_matter(start, rest, stream);
        let kept = incoming::of_phase(rest, 1);
        assert(kept.push(packets.last()).drop_last() =~= kept);
    }
}

/// Packets that arrive later go on where the earlier ones left off.
proof fn lemma_applied_joined(
    start: Option<u64>,
    first: Seq<PacketView>,
    second: Seq<PacketView>,
    stream: (u64, u64),
)
    ensures
        ({
            let before = applied_updates(start, first, stream);
            applied_updates(start, first + second, stream) == before + applied_updates(
                latest_applied(start, before),
                second,
                stream,
            )
        }),
    decreases second.len(),
{
    let before = applied_updates(start, first, stream);
    let middle = latest_applied(start, before);
    if second.len() == 0 {
        assert(first + second =~= first);
    } else {
        lemma_applied_joined(start, first, second.drop_last(), stream);
        assert((first + second).drop_last() =~= first + second.drop_last());
        let added = applied_updates(middle, second.drop_last(), stream);
        assert(latest_applied(start, before + added) == latest_applied(middle, added));
    }
    assert(applied_updates(start, first + second, stream) =~= before + applied_updates(
        middle,
        second,
        stream,
    ));
}

/// The updates' turn applies to the entity what is newer, in order.
proof fn lemma_update_commands<C, R, P>(
    around: Surroundings<C, R, P>,
    start: Progress,
    packets: Seq<PacketView>,
    stream: (u64, u64),
    entity: Entity,
)
    requires
        forall|i: int| 0 <= i < packets.len() ==> incoming::phase(#[trigger] packets[i]) == 1,
        around.components.lookup(stream.1) is Some,
        delivery::is_sole_stream(start.index, packets, stream, entity),
        start.index.entity(NetworkId(stream.0)) == Some(entity),
    ensures
        ({
            let done = incoming::handle_all(around, start, packets);
            let applied = applied_updates(latest(start.sequence, stream), packets, stream);
            &&& commands_for(done.commands, entity, stream.1) == commands_for(
                start.commands,
                entity,
                stream.1,
            ) + as_commands(applied, entity, stream)
            &&& latest(done.sequence, stream) == latest_applied(
                latest(start.sequence, stream),
                applied,
            )
        }),
    decreases packets.len(),
{
    reveal(Seq::filter);
    let done = incoming::handle_all(around, start, packets);
    let applied = applied_updates(latest(start.sequence, stream), packets, stream);
    let own = commands_for(start.commands, entity, stream.1);
    if packets.len() > 0 {
        let rest = packets.drop_last();
        let last = packets[packets.len() - 1];
        assert forall|i: int| 0 <= i < rest.len() implies incoming::phase(#[trigger] rest[i])
            == 1 by {
            assert(rest[i] == packets[i]);
        }
        assert(delivery::is_sole_stream(start.index, rest, stream, entity)) by {
            assert forall|i: int| 0 <= i < rest.len() && delivery::targets(
                start.index,
                #[trigger] rest[i],
                entity,
                stream.1,
            ) implies delivery::of_stream(rest[i], stream) by {
                assert(rest[i] == packets[i]);
            }
        }
        assert(delivery::targets(start.index, last, entity, stream.1) ==> delivery::of_stream(
            last,
            stream,
        ));
        lemma_update_commands(around, start, rest, stream, entity);
        delivery::lemma_update_stage(around, start, rest);
        let before = incoming::handle_all(around, start, rest);
        let earlier = applied_updates(latest(start.sequence, stream), rest, stream);
        assert(incoming::phase(last) == 1);
        if done.commands.len() > before.commands.len() {
            assert(done.commands.drop_last() =~= before.commands);
        }
        if applied.len() > earlier.len() {
            assert(own + as_commands(applied, entity, stream) =~= (own + as_commands(
                earlier,
                entity,
                stream,
            )).push(delivery::applied(entity, stream, applied.last().1)));
        }
    }
    assert(commands_for(done.commands, entity, stream.1) =~= own + as_commands(
        applied,
        entity,
        stream,
    ));
}

/// Despawns of others leave the number of a stream noted.
pub(crate) proof fn lemma_number_stays_noted<C, R, P>(
    around: Surroundings<C, R, P>,
    start: Progress,
    packets: Seq<PacketView>,
    stream: (u64, u64),
)
    requires
        forall|i: int| 0 <= i < packets.len() ==> incoming::phase(#[trigger] packets[i]) == 2,
        !packets.contains(PacketView::DespawnEntity { network_id: stream.0 }),
    ensures
        latest(incoming::handle_all(around, start, packets).sequence, stream) == latest(
            start.sequence,
            stream,
        ),
    decreases packets.len(),
{
    if packets.len() > 0 {
        let rest = packets.drop_last();
        let last = packets[packets.len() - 1];
        let despawn = PacketView::DespawnEntity { network_id: stream.0 };
        assert(incoming::phase(last) == 2);
        assert(packets.contains(last));
        assert forall|i: int| 0 <= i < rest.len() implies incoming::phase(#[trigger] rest[i])
            == 2 by {
            assert(rest[i] == packets[i]);
        }
        assert(!rest.contains(despawn)) by {
            if rest.contains(despawn) {
                assert(packets[rest.index_of(despawn)] == despawn);
            }
        }
        lemma_number_stays_noted(around, start, rest, stream);
    }
}

/// Whether a frame has the entity under the stream's network ID from the
/// updates' turn to its end, gets updates of the component for it under no
/// other one, and knows the component.
pub open spec fn keeps_entity<C, R, P>(
    world: WorldView<C, R, P>,
    fresh: Seq<Entity>,
    stream: (u64, u64),
    entity: Entity,
) -> bool {
    &&& world.components.lookup(stream.1) is Some
    &&& delivery::is_sole_stream(
        world.after_spawns(fresh).index,
        world.incoming(),
        stream,
        entity,
    )
    &&& world.after_spawns(fresh).index.entity(NetworkId(stream.0)) == Some(entity)
    &&& !world.incoming().contains(PacketView::DespawnEntity { network_id: stream.0 })
}

/// In a frame that keeps an entity, exactly the updates that are newer than all
/// before them are applied to it, in order of arrival, and the number of the
/// last of them stays noted.
pub proof fn law_frame_applies_what_is_newer<C, R, P>(
    world: WorldView<C, R, P>,
    fresh: Seq<Entity>,
    stream: (u64, u64),
    entity: Entity,
)
    requires
        keeps_entity(world, fresh, stream, entity),
    ensures
        ({
            let start = latest(world.sequence, stream);
            let applied = applied_updates(start, world.incoming(), stream);
            &&& commands_for(world.handled(fresh).commands, entity, stream.1) == as_commands(
                applied,
                entity,
                stream,
            )
            &&& latest(world.after_incoming(fresh).sequence, stream) == latest_applied(
                start,
                applied,
            )
        }),
{
    let all = world.incoming();
    let around = world.surroundings(fresh);
    let start = Progress::start(world.index, world.sequence);
    let first = incoming::of_phase(all, 0);
    let second = incoming::of_phase(all, 1);
    let third = incoming::of_phase(all, 2);
    let own = |command: CommandView| delivery::applies_to(command, entity, stream.1);
    let spawned = world.after_spawns(fresh);
    let updated = world.after_updates(fresh);
    let handled = world.handled(fresh);
    incoming::lemma_of_phase(all, 0);
    incoming::lemma_of_phase(all, 1);
    incoming::lemma_of_phase(all, 2);
    delivery::lemma_stages(world, fresh);
    delivery::lemma_spawn_stage(around, start, first);
    assert forall|i: int| 0 <= i < spawned.commands.len() implies !own(
        #[trigger] spawned.commands[i],
    ) by {
        assert(spawned.commands[start.commands.len() + i] == spawned.commands[i]);
    }
    lists::lemma_filter_extremes(spawned.commands, own);
    delivery::lemma_sole_stream_of_phase(spawned.index, all, 1, stream, entity);
    lemma_update_commands(around, spawned, second, stream, entity);
    lemma_only_updates_matter(latest(world.sequence, stream), all, stream);
    delivery::lemma_despawn_stage(around, updated, third);
    delivery::lemma_phase_contains(all, PacketView::DespawnEntity { network_id: stream.0 });
    lemma_number_stays_noted(around, updated, third, stream);
    let tail = handled.commands.skip(updated.commands.len() as int);
    assert(handled.commands =~= updated.commands + tail);
    assert forall|i: int| 0 <= i < tail.len() implies !own(#[trigger] tail[i]) by {
        assert(tail[i] == handled.commands[updated.commands.len() + i]);
    }
    lists::lemma_filter_extremes(tail, own);
    Seq::filter_distributes_over_add(updated.commands, tail, own);
    let applied = applied_updates(latest(world.sequence, stream), all, stream);
    assert(Seq::<CommandView>::empty() + as_commands(applied, entity, stream) =~= as_commands(
        applied,
        entity,
        stream,
    ));
    assert(as_commands(applied, entity, stream) + Seq::<CommandView>::empty() =~= as_commands(
        applied,
        entity,
        stream,
    ));
}

/// One frame: the state when it starts, and the empty entities that it gets.
#[verifier::reject_recursive_types(C)]
#[verifier::reject_recursive_types(R)]
#[verifier::reject_recursive_types(P)]
pub struct Frame<C, R, P> {
    pub world: WorldView<C, R, P>,
    pub fresh: Seq<Entity>,
}

/// Whether each frame keeps the entity and starts with the number of the stream
/// that the frame before noted.
pub open spec fn is_run<C, R, P>(
    frames: Seq<Frame<C, R, P>>,
    stream: (u64, u64),
    entity: Entity,
) -> bool {
    &&& forall|i: int|
        0 <= i < frames.len() ==> keeps_entity(
            (#[trigger] frames[i]).world,
            frames[i].fresh,
            stream,
            entity,
        )
    &&& forall|i: int|
        0 < i < frames.len() ==> latest((#[trigger] frames[i]).world.sequence, stream) == latest(
            frames[i - 1].world.after_incoming(frames[i - 1].fresh).sequence,
            stream,
        )
}

/// The packets of all frames, in order.
pub open spec fn all_packets<C, R, P>(frames: Seq<Frame<C, R, P>>) -> Seq<PacketView>
    decreases frames.len(),
{
    if frames.len() == 0 {
        Seq::empty()
    } else {
        all_packets(frames.drop_last()) + frames.last().world.incoming()
    }
}

/// The commands of all frames, in order.
pub open spec fn all_commands<C, R, P>(frames: Seq<Frame<C, R, P>>) -> Seq<CommandView>
    decreases frames.len(),
{
    if frames.len() == 0 {
        Seq::empty()
    } else {
        all_commands(frames.drop_last()) + frames.last().world.handled(frames.last().fresh).commands
    }
}

/// A run of frames applies what one long frame would.
proof fn lemma_run<C, R, P>(frames: Seq<Frame<C, R, P>>, stream: (u64, u64), entity: Entity)
    requires
        frames.len() > 0,
        is_run(frames, stream, entity),
    ensures
        ({
            let start = latest(frames[0].world.sequence, stream);
            let applied = applied_updates(start, all_packets(frames), stream);
            let last = frames.last();
            &&& commands_for(all_commands(frames), entity, stream.1) == as_commands(
                applied,
                entity,
                stream,
            )
            &&& latest(last.world.after_incoming(last.fresh).sequence, stream) == latest_applied(
                start,
                applied,
            )
        }),
    decreases frames.len(),
{
    let start = latest(frames[0].world.sequence, stream);
    let last = frames[frames.len() - 1];
    let rest = frames.drop_last();
    let commands = last.world.handled(last.fresh).commands;
    let packets = last.world.incoming();
    let own = |command: CommandView| delivery::applies_to(command, entity, stream.1);
    law_frame_applies_what_is_newer(last.world, last.fresh, stream, entity);
    Seq::filter_distributes_over_add(all_commands(rest), commands, own);
    lemma_applied_joined(start, all_packets(rest), packets, stream);
    let before = applied_updates(start, all_packets(rest), stream);
    if rest.len() == 0 {
        reveal(Seq::filter);
        assert(all_packets(rest) =~= Seq::<PacketView>::empty());
        assert(all_commands(rest) =~= Seq::<CommandView>::empty());
        assert(latest(last.world.sequence, stream) == latest_applied(start, before));
    } else {
        assert(is_run(rest, stream, entity)) by {
            assert forall|i: int| 0 <= i < rest.len() implies keeps_entity(
                (#[trigger] rest[i]).world,
                rest[i].fresh,
                stream,
                entity,
            ) by {
                assert(rest[i] == frames[i]);
            }
            assert forall|i: int| 0 < i < rest.len() implies latest(
                (#[trigger] rest[i]).world.sequence,
                stream,
            ) == latest(rest[i - 1].world.after_incoming(rest[i - 1].fresh).sequence, stream) by {
                assert(rest[i] == frames[i]);
                assert(rest[i - 1] == frames[i - 1]);
            }
        }
        lemma_run(rest, stream, entity);
        assert(rest.last() == frames[frames.len() - 2]);
        assert(rest[0] == frames[0]);
    }
    let added = applied_updates(latest_applied(start, before), packets, stream);
    assert(as_commands(before, entity, stream) + as_commands(added, entity, stream)
        =~= as_commands(before + added, entity, stream));
}

/// Entities do not snap back. Over any run of frames that keep an entity, the
/// updates of one of its components are applied with increasing numbers,
/// whatever the order in which they arrive: late and repeated ones are
/// dropped, and the last one applied has the highest number that arrived.
pub proof fn law_entities_do_not_snap_back<C, R, P>(
    frames: Seq<Frame<C, R, P>>,
    stream: (u64, u64),
    entity: Entity,
)
    requires
        frames.len() > 0,
        is_run(frames, stream, entity),
    ensures
        ({
            let start = latest(frames[0].world.sequence, stream);
            let packets = all_packets(frames);
            let applied = applied_updates(start, packets, stream);
            &&& commands_for(all_commands(frames), entity, stream.1) == as_commands(
                applied,
                entity,
                stream,
            )
            &&& forall|i: int, j: int|
                0 <= i < j < applied.len() ==> (#[trigger] applied[i]).0 < (
                #[trigger] applied[j]).0
            &&& forall|i: int|
                0 <= i < applied.len() ==> is_newer(start, (#[trigger] applied[i]).0) && arrived(
                    packets,
                    stream,
                    applied[i],
                )
            &&& forall|i: int|
                0 <= i < packets.len() && delivery::of_stream(#[trigger] packets[i], stream)
                    ==> !is_newer(
                    latest_applied(start, applied),
                    packets[i]->UpdateComponent_sequence,
                )
        }),
{
    lemma_run(frames, stream, entity);
    law_applied_updates_increase(
        latest(frames[0].world.sequence, stream),
        all_packets(frames),
        stream,
    );
}

} // verus!
