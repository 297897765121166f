use bevy_networker_multiplayer::netmsg::WireType;
use bevy_networker_multiplayer::netres::{ConnectionId, NetResource, ReplicationPacket};
use bevy_networker_multiplayer::replicated::{Entity, EntityIndex, NetworkId};
use bevy_networker_multiplayer::sync;
use bevy_networker_multiplayer::sync::incoming::order_packets;
use bevy_networker_multiplayer::sync::{
    ComponentRegistration, ComponentUpdateSequenceState, PrefabCandidate, PrefabId,
    PrefabRegistration, PrefabRegistry, ReplicationWorld, ResourceRef, ResourceRegistration,
    ResourceUpdate, Seconds, SyncComponent, SyncRegistry, SyncResource, SyncResourceRegistry,
    SyncResourceSendState, SyncResourceSettings, WorldCommand, WorldSnapshot,
};

type World = ReplicationWorld<u8, u8, u8>;

const HEALTH: u64 = 100;
const ARMOR: u64 = 101;
const SCORE: u64 = 200;
const CUBE: u64 = 300;

fn world() -> World {
    let mut world = World::new();
    sync::register_sync_components(
        &mut world,
        &vec![
            ComponentRegistration { type_path: "Health", wire_id: HEALTH, handlers: 1 },
            ComponentRegistration { type_path: "Armor", wire_id: ARMOR, handlers: 2 },
        ],
        &vec![ResourceRegistration { type_path: "Score", wire_id: SCORE, handlers: 3 }],
        &vec![PrefabRegistration { type_path: "Cube", wire_id: CUBE, handlers: 4 }],
    );
    world
}

fn server() -> World {
    let mut world = world();
    world.net.start_server();
    world
}

fn spawn(network_id: u64, prefab_wire_id: u64) -> ReplicationPacket {
    ReplicationPacket::SpawnEntity { network_id, prefab_wire_id }
}

fn despawn(network_id: u64) -> ReplicationPacket {
    ReplicationPacket::DespawnEntity { network_id }
}

fn update(network_id: u64, component_wire_id: u64, sequence: u64, byte: u8) -> ReplicationPacket {
    ReplicationPacket::UpdateComponent {
        network_id,
        component_wire_id,
        sequence,
        bytes: vec![byte],
    }
}

fn resource(resource_wire_id: u64, byte: u8) -> ReplicationPacket {
    ReplicationPacket::UpdateResource { resource_wire_id, bytes: vec![byte] }
}

/// Applies packets with entities from `first` on, and tells the commands.
fn frame(world: &mut World, first: u64, packets: Vec<ReplicationPacket>) -> Vec<String> {
    for packet in packets {
        world.net.inject_packet(packet);
    }
    let count = world.net.incoming_spawn_count() as u64;
    let fresh: Vec<Entity> = (first..first + count).map(Entity).collect();
    sync::apply_incoming_packets(world, &fresh).iter().map(tell).collect()
}

fn tell(command: &WorldCommand) -> String {
    match command {
        WorldCommand::Spawn { entity, network_id, prefab } => {
            format!("spawn {} as {} {:?}", entity.0, network_id.0, prefab)
        }
        WorldCommand::Despawn { entity } => format!("despawn {}", entity.0),
        WorldCommand::ApplyComponent { entity, component_wire_id, bytes } => {
            format!("apply {} {} {:?}", entity.0, component_wire_id, bytes)
        }
        WorldCommand::ApplyResource { resource_wire_id, bytes } => {
            format!("resource {resource_wire_id} {bytes:?}")
        }
    }
}

fn tell_packet(packet: &ReplicationPacket) -> String {
    match packet {
        ReplicationPacket::SpawnEntity { network_id, prefab_wire_id } => {
            format!("spawn {network_id} {prefab_wire_id}")
        }
        ReplicationPacket::DespawnEntity { network_id } => format!("despawn {network_id}"),
        ReplicationPacket::UpdateComponent { network_id, component_wire_id, sequence, bytes } => {
            format!("update {network_id} {component_wire_id} {sequence} {bytes:?}")
        }
        ReplicationPacket::UpdateResource { resource_wire_id, bytes } => {
            format!("resource {resource_wire_id} {bytes:?}")
        }
    }
}

fn outbox(net: &mut NetResource) -> Vec<String> {
    net.drain_outbox().iter().map(tell_packet).collect()
}

#[test]
fn packets_are_grouped_by_phase() {
    let ordered = order_packets(vec![
        despawn(1),
        update(1, HEALTH, 1, 1),
        spawn(1, 0),
        resource(SCORE, 2),
        despawn(2),
        spawn(2, 0),
    ]);
    let told: Vec<String> = ordered.iter().map(tell_packet).collect();
    assert_eq!(
        told,
        vec![
            "spawn 1 0",
            "spawn 2 0",
            "update 1 100 1 [1]",
            "resource 200 [2]",
            "despawn 1",
            "despawn 2",
        ]
    );
}

#[test]
fn frame_applies_spawns_updates_despawns() {
    let mut world = world();
    let told = frame(
        &mut world,
        50,
        vec![despawn(1), update(1, HEALTH, 1, 9), spawn(1, 0), spawn(2, CUBE), spawn(3, 999)],
    );
    assert_eq!(
        told,
        vec![
            "spawn 50 as 1 None",
            "spawn 51 as 2 Some(300)",
            "spawn 52 as 3 None",
            "apply 50 100 [9]",
            "despawn 50",
        ]
    );
    assert_eq!(world.index.entity(NetworkId(1)), None);
    assert_eq!(world.index.entity(NetworkId(2)), Some(Entity(51)));
    assert_eq!(world.index.network_id(Entity(52)), Some(NetworkId(3)));
}

#[test]
fn newest_update_is_applied_last() {
    let mut world = world();
    frame(&mut world, 50, vec![spawn(1, 0)]);
    let told = frame(
        &mut world,
        60,
        vec![
            update(1, HEALTH, 4, 40),
            update(1, HEALTH, 6, 60),
            update(1, HEALTH, 5, 50),
            update(1, HEALTH, 6, 61),
            update(1, ARMOR, 1, 10),
        ],
    );
    assert_eq!(told, vec!["apply 50 100 [40]", "apply 50 100 [60]", "apply 50 101 [10]"]);
    assert!(frame(&mut world, 60, vec![update(1, HEALTH, 6, 62)]).is_empty());
    assert_eq!(frame(&mut world, 60, vec![update(1, HEALTH, 7, 70)]), vec!["apply 50 100 [70]"]);
}

#[test]
fn early_updates_wait_over_several_frames() {
    let mut world = world();
    assert!(frame(&mut world, 50, vec![update(7, HEALTH, 1, 1)]).is_empty());
    assert!(frame(&mut world, 50, vec![update(7, HEALTH, 2, 2)]).is_empty());
    assert_eq!(
        frame(&mut world, 50, vec![spawn(7, 0)]),
        vec!["spawn 50 as 7 None", "apply 50 100 [1]", "apply 50 100 [2]"]
    );
    assert!(frame(&mut world, 60, Vec::new()).is_empty());
}

#[test]
fn unknown_identifiers_are_ignored() {
    let mut world = world();
    frame(&mut world, 50, vec![spawn(1, 0)]);
    assert!(frame(
        &mut world,
        60,
        vec![update(1, 555, 1, 1), update(9, 555, 1, 1), resource(555, 1), despawn(9)],
    )
    .is_empty());
    assert!(frame(&mut world, 60, vec![spawn(9, 0)]).len() == 1);
}

#[test]
fn resource_updates_are_applied_in_order() {
    let mut world = world();
    let told = frame(
        &mut world,
        50,
        vec![resource(SCORE, 1), spawn(1, 0), resource(SCORE, 2), resource(7, 7)],
    );
    assert_eq!(told, vec!["spawn 50 as 1 None", "resource 200 [1]", "resource 200 [2]"]);
}

#[test]
fn despawned_streams_start_afresh() {
    let mut world = world();
    frame(&mut world, 50, vec![spawn(1, 0), update(1, HEALTH, 9, 1)]);
    assert_eq!(frame(&mut world, 60, vec![despawn(1)]), vec!["despawn 50"]);
    assert_eq!(
        frame(&mut world, 70, vec![spawn(1, 0), update(1, HEALTH, 1, 2)]),
        vec!["spawn 70 as 1 None", "apply 70 100 [2]"]
    );
}

#[test]
fn sequence_numbers_start_at_one_and_stop_at_the_top() {
    let mut state = ComponentUpdateSequenceState::default();
    assert_eq!(state.next_outgoing(), 1);
    assert_eq!(state.next_outgoing(), 2);
    assert!(state.accept_incoming(1, 1, 5));
    assert!(!state.accept_incoming(1, 1, 5));
    assert!(!state.accept_incoming(1, 1, 4));
    assert!(state.accept_incoming(1, 2, 1));
    assert!(state.accept_incoming(2, 1, 0));
    state.forget_network_id(1);
    assert!(state.accept_incoming(1, 1, 1));
    assert!(!state.accept_incoming(2, 1, 0));
}

#[test]
fn worlds_number_updates() {
    let mut world = world();
    assert_eq!(sync::next_component_update_sequence(&mut world), 1);
    assert_eq!(sync::next_component_update_sequence(&mut world), 2);
}

#[test]
fn last_registration_wins() {
    let mut components: SyncRegistry<u8> = SyncRegistry::new();
    components.register(ComponentRegistration { type_path: "A", wire_id: 1, handlers: 1 });
    components.register(ComponentRegistration { type_path: "B", wire_id: 1, handlers: 2 });
    assert_eq!(components.by_wire_id(1).unwrap().handlers, 2);
    assert!(components.by_wire_id(2).is_none());

    let mut resources: SyncResourceRegistry<u8> = SyncResourceRegistry::new();
    resources.register(ResourceRegistration { type_path: "A", wire_id: 1, handlers: 3 });
    assert_eq!(resources.by_wire_id(1).unwrap().type_path, "A");

    let mut prefabs: PrefabRegistry<u8> = PrefabRegistry::new();
    prefabs.register(PrefabRegistration { type_path: "A", wire_id: 1, handlers: 1 });
    prefabs.register(PrefabRegistration { type_path: "B", wire_id: 2, handlers: 2 });
    prefabs.register(PrefabRegistration { type_path: "B", wire_id: 2, handlers: 3 });
    let mut all: Vec<(u64, u8)> =
        prefabs.all().iter().map(|prefab| (prefab.wire_id, prefab.handlers)).collect();
    all.sort();
    assert_eq!(all, vec![(1, 1), (2, 3)]);
    assert_eq!(prefabs.by_wire_id(2).unwrap().handlers, 3);
}

#[test]
fn spans_compare_like_floats() {
    let bits = |value: f32| Seconds(value.to_bits());
    let samples =
        [0.0f32, -0.0, 0.5, 1.0, -1.0, 1e-40, f32::MAX, f32::INFINITY, f32::NEG_INFINITY, f32::NAN];
    for left in samples {
        for right in samples {
            assert_eq!(bits(left).at_least(bits(right)), left >= right, "{left} {right}");
        }
        let clamped = f32::from_bits(bits(left).or_zero().0);
        assert_eq!(clamped, left.max(0.0), "{left}");
    }
    assert_eq!(f32::from_bits(Seconds::zero().0), 0.0);
    assert_eq!(f32::from_bits(Seconds::infinity().0), f32::INFINITY);
}

#[derive(Clone, Copy, Debug, PartialEq)]
struct Score(u8);

impl WireType for Score {
    const TYPE_PATH: &'static str = "sync::Score";

    fn encode(&self) -> Vec<u8> {
        vec![self.0]
    }

    fn decode(bytes: &[u8]) -> Option<Self> {
        bytes.first().map(|byte| Score(*byte))
    }
}

impl SyncResource for Score {}
impl SyncComponent for Score {}

struct Clock {
    state: SyncResourceSendState,
    settings: SyncResourceSettings,
}

impl Clock {
    fn new(interval: f32, heartbeat: Option<f32>) -> Clock {
        Clock {
            state: SyncResourceSendState::default(),
            settings: SyncResourceSettings {
                min_interval_seconds: Seconds(interval.to_bits()),
                heartbeat_seconds: heartbeat.map(|seconds| Seconds(seconds.to_bits())),
            },
        }
    }

    fn run(&mut self, net: &mut NetResource, delta: f32, value: u8, changed: bool) -> Vec<String> {
        let since = f32::from_bits(self.state.seconds_since_send().0);
        let score = Score(value);
        sync::sync_resource_with_settings(
            Seconds((since + delta).to_bits()),
            net,
            Some(ResourceRef { value: &score, added: false, changed }),
            &mut self.state,
            self.settings,
        );
        net.drain_outbox()
            .iter()
            .map(|packet| match packet {
                ReplicationPacket::UpdateResource { resource_wire_id, bytes } => {
                    assert_eq!(*resource_wire_id, Score::wire_id());
                    format!("{bytes:?}")
                }
                other => panic!("unexpected packet: {other:?}"),
            })
            .collect()
    }
}

fn server_net() -> NetResource {
    let mut net = NetResource::new();
    net.start_server();
    net
}

#[test]
fn default_settings_send_every_change_at_once() {
    let settings = SyncResourceSettings::default();
    assert_eq!(f32::from_bits(settings.min_interval_seconds.0), 0.0);
    assert!(settings.heartbeat_seconds.is_none());
    let state = SyncResourceSendState::default();
    assert_eq!(f32::from_bits(state.seconds_since_send().0), f32::INFINITY);

    let mut net = server_net();
    let mut state = SyncResourceSendState::default();
    let score = Score(4);
    let seen = ResourceRef { value: &score, added: true, changed: false };
    sync::sync_resource(Seconds::infinity(), &mut net, Some(seen), &mut state);
    assert_eq!(net.drain_outbox().len(), 1);
    assert_eq!(f32::from_bits(state.seconds_since_send().0), 0.0);
}

#[test]
fn clients_and_missing_resources_send_nothing() {
    let mut client = NetResource::new();
    let mut clock = Clock::new(0.0, None);
    assert!(clock.run(&mut client, 1.0, 1, true).is_empty());
    assert_eq!(f32::from_bits(clock.state.seconds_since_send().0), f32::INFINITY);

    let mut net = server_net();
    let mut state = SyncResourceSendState::default();
    sync::sync_resource::<Score>(Seconds::zero(), &mut net, None, &mut state);
    assert!(net.drain_outbox().is_empty());
}

#[test]
fn heartbeats_repeat_the_last_value() {
    let mut net = server_net();
    let mut clock = Clock::new(0.75, Some(1.0));
    assert_eq!(clock.run(&mut net, 0.0, 5, true), vec!["[5]"]);
    assert!(clock.run(&mut net, 0.5, 5, false).is_empty());
    assert_eq!(clock.run(&mut net, 0.5, 5, false), vec!["[5]"]);
    assert!(clock.run(&mut net, 0.25, 6, true).is_empty());
    assert_eq!(clock.run(&mut net, 0.5, 6, false), vec!["[6]"]);
}

#[test]
fn heartbeats_keep_the_interval() {
    let mut net = server_net();
    let mut clock = Clock::new(10.0, Some(1.0));
    assert_eq!(clock.run(&mut net, 0.0, 1, true), vec!["[1]"]);
    assert!(clock.run(&mut net, 2.0, 1, false).is_empty());
    assert!(clock.run(&mut net, 2.0, 2, true).is_empty());
    assert!(clock.run(&mut net, 5.0, 2, false).is_empty());
    assert_eq!(clock.run(&mut net, 1.0, 2, false), vec!["[2]"]);
    assert_eq!(clock.run(&mut net, 10.0, 2, false), vec!["[2]"]);
}

#[test]
fn sends_in_a_row_differ_and_keep_the_interval() {
    let mut net = server_net();
    let mut clock = Clock::new(1.0, None);
    let values = [1u8, 1, 2, 3, 2, 2, 3, 3, 1, 2, 2, 2];
    let mut sent: Vec<(f32, String)> = Vec::new();
    let mut now = 0.0f32;
    for value in values {
        now += 0.5;
        for bytes in clock.run(&mut net, 0.5, value, true) {
            sent.push((now, bytes));
        }
    }
    assert!(sent.len() > 2);
    for pair in sent.windows(2) {
        assert!(pair[1].0 - pair[0].0 >= 1.0);
        assert_ne!(pair[0].1, pair[1].1);
    }
}

#[test]
fn latest_value_is_announced_after_a_change_and_back() {
    let mut net = server_net();
    let mut clock = Clock::new(0.5, None);
    assert_eq!(clock.run(&mut net, 0.0, 1, true), vec!["[1]"]);
    assert!(clock.run(&mut net, 0.125, 2, true).is_empty());
    assert!(clock.run(&mut net, 0.125, 1, true).is_empty());
    assert!(clock.run(&mut net, 1.0, 1, false).is_empty());
    assert_eq!(clock.run(&mut net, 1.0, 3, true), vec!["[3]"]);
}

#[test]
fn resource_updates_replace_only_what_differs() {
    let mut slot: Option<Score> = None;
    assert_eq!(sync::apply_resource_update(&mut slot, &[3]), ResourceUpdate::Replaced);
    assert_eq!(slot, Some(Score(3)));
    assert_eq!(sync::apply_resource_update(&mut slot, &[3]), ResourceUpdate::Unchanged);
    assert_eq!(sync::apply_resource_update(&mut slot, &[]), ResourceUpdate::Undecodable);
    assert_eq!(slot, Some(Score(3)));
    assert_eq!(sync::apply_resource_update(&mut slot, &[4]), ResourceUpdate::Replaced);
    assert_eq!(slot, Some(Score(4)));
}

#[test]
fn assigned_ids_are_new_and_announced() {
    let mut world = server();
    let first = sync::assign_network_ids(
        &mut world,
        &vec![(Entity(10), None), (Entity(11), Some(PrefabId(CUBE)))],
    );
    assert_eq!(first, vec![(Entity(10), NetworkId(0)), (Entity(11), NetworkId(1))]);
    let second = sync::assign_network_ids(&mut world, &vec![(Entity(12), None)]);
    assert_eq!(second, vec![(Entity(12), NetworkId(2))]);
    assert_eq!(world.index.entity(NetworkId(1)), Some(Entity(11)));
    assert_eq!(outbox(&mut world.net), vec!["spawn 0 0", "spawn 1 300", "spawn 2 0"]);
}

#[test]
fn clients_assign_and_send_nothing() {
    let mut world = world();
    assert!(sync::assign_network_ids(&mut world, &vec![(Entity(1), None)]).is_empty());
    let score = Score(1);
    sync::sync_component(&mut world.net, &mut world.sequence, &vec![(NetworkId(1), &score)]);
    world.index.insert(NetworkId(4), Entity(4));
    sync::replicate_removals(&vec![Entity(4)], &mut world.net, &mut world.index);
    assert_eq!(world.index.entity(NetworkId(4)), Some(Entity(4)));
    world.net.accept_connection(ConnectionId(1));
    let nothing = WorldSnapshot {
        entities: vec![(NetworkId(1), None)],
        components: Vec::new(),
        resources: Vec::new(),
    };
    assert!(sync::sync_new_connections(&mut world, &nothing).is_empty());
    assert_eq!(world.net.drain_new_connections(), vec![ConnectionId(1)]);
    assert!(outbox(&mut world.net).is_empty());
}

#[test]
fn component_updates_carry_increasing_numbers() {
    let mut world = server();
    let scores = [Score(7), Score(8)];
    sync::sync_component(
        &mut world.net,
        &mut world.sequence,
        &vec![(NetworkId(1), &scores[0]), (NetworkId(2), &scores[1])],
    );
    sync::sync_component(&mut world.net, &mut world.sequence, &vec![(NetworkId(1), &scores[1])]);
    let id = Score::wire_id();
    assert_eq!(
        outbox(&mut world.net),
        vec![
            format!("update 1 {id} 1 [7]"),
            format!("update 2 {id} 2 [8]"),
            format!("update 1 {id} 3 [8]"),
        ]
    );
}

#[test]
fn first_matching_prefab_is_taken() {
    let registrations = vec![
        PrefabRegistration { type_path: "A", wire_id: 1, handlers: () },
        PrefabRegistration { type_path: "B", wire_id: 2, handlers: () },
        PrefabRegistration { type_path: "C", wire_id: 3, handlers: () },
    ];
    let candidate = |entity: u64, prefab: Option<PrefabId>, matches: [bool; 3]| PrefabCandidate {
        entity: Entity(entity),
        prefab,
        matches: matches.to_vec(),
    };
    let tags = sync::assign_prefab_ids(
        &vec![
            candidate(1, None, [false, true, true]),
            candidate(2, None, [false, false, false]),
            candidate(3, Some(PrefabId(9)), [true, true, true]),
            candidate(4, None, [true, false, false]),
        ],
        &registrations,
    );
    assert_eq!(tags, vec![(Entity(1), PrefabId(2)), (Entity(4), PrefabId(1))]);
}

#[test]
fn removals_are_announced_once() {
    let mut net = server_net();
    let mut index = EntityIndex::default();
    index.insert(NetworkId(1), Entity(10));
    index.insert(NetworkId(2), Entity(20));
    sync::replicate_removals(
        &vec![Entity(20), Entity(99), Entity(20)],
        &mut net,
        &mut index,
    );
    assert_eq!(outbox(&mut net), vec!["despawn 2"]);
    assert!(index.entity(NetworkId(2)).is_none());
    assert_eq!(index.entity(NetworkId(1)), Some(Entity(10)));
}

#[test]
fn hooks_forward_to_the_queues() {
    let mut net = server_net();
    net.accept_connection(ConnectionId(1));
    net.queue_packet(despawn(1));
    sync::poll_network_incoming(&mut net);
    assert_eq!(sync::flush_network_outbox(&mut net).len(), 1);
    assert!(sync::flush_network_outbox(&mut net).is_empty());
}

#[test]
fn new_clients_rebuild_the_snapshot() {
    let mut world = server();
    world.net.accept_connection(ConnectionId(1));
    world.net.accept_connection(ConnectionId(2));
    let healths = [Score(5), Score(6)];
    let mut health = sync::snapshot_component(&vec![
        (NetworkId(3), &healths[0]),
        (NetworkId(4), &healths[1]),
    ]);
    assert_eq!(health.wire_id, Score::wire_id());
    health.wire_id = HEALTH;
    let mut score = sync::snapshot_resource(Some(&Score(9)));
    assert_eq!(score.wire_id, Score::wire_id());
    score.wire_id = SCORE;
    let absent = sync::snapshot_resource::<Score>(None);
    assert!(absent.bytes.is_none());
    let snapshot = WorldSnapshot {
        entities: vec![(NetworkId(3), None), (NetworkId(4), Some(PrefabId(CUBE)))],
        components: vec![health],
        resources: vec![absent, score],
    };
    let sends = sync::sync_new_connections(&mut world, &snapshot);
    assert_eq!(sends.len(), 10);
    assert!(sends[..5].iter().all(|send| send.connection == ConnectionId(1)));
    assert!(sends[5..].iter().all(|send| send.connection == ConnectionId(2)));
    assert!(world.net.drain_new_connections().is_empty());
    assert_eq!(sync::next_component_update_sequence(&mut world), 5);

    let mut told = Vec::new();
    for half in [&sends[..5], &sends[5..]] {
        let mut client = crate::world();
        for send in half {
            client.net.receive_replication(&send.payload).expect("the payload should be read");
        }
        told.push(frame(&mut client, 70, Vec::new()));
    }
    assert_eq!(told[0], told[1]);
    assert_eq!(
        told[0],
        vec![
            "spawn 70 as 3 None",
            "spawn 71 as 4 Some(300)",
            "apply 70 100 [5]",
            "apply 71 100 [6]",
            "resource 200 [9]",
        ]
    );
}

#[test]
fn removed_ids_are_not_given_out_again() {
    let mut world = server();
    sync::assign_network_ids(&mut world, &vec![(Entity(10), None)]);
    sync::replicate_removals(&vec![Entity(10)], &mut world.net, &mut world.index);
    let again = sync::assign_network_ids(&mut world, &vec![(Entity(10), None)]);
    assert_eq!(again, vec![(Entity(10), NetworkId(1))]);
    assert_eq!(outbox(&mut world.net), vec!["spawn 0 0", "despawn 0", "spawn 1 0"]);
}

#[test]
fn entities_do_not_snap_back_over_several_frames() {
    let mut world = world();
    frame(&mut world, 50, vec![spawn(1, 0)]);
    let mut applied: Vec<String> = Vec::new();
    for numbers in [vec![3u8, 1], vec![2, 3], vec![7, 5], vec![6, 7, 4], vec![8]] {
        let packets =
            numbers.iter().map(|number| update(1, HEALTH, *number as u64, *number)).collect();
        applied.extend(frame(&mut world, 60, packets));
    }
    assert_eq!(applied, vec!["apply 50 100 [3]", "apply 50 100 [7]", "apply 50 100 [8]"]);
}

#[test]
fn repeated_spawns_do_not_mix_streams() {
    let mut world = world();
    frame(&mut world, 50, vec![spawn(1, 0), spawn(2, 0), update(1, HEALTH, 5, 5)]);
    assert_eq!(frame(&mut world, 60, vec![spawn(1, 0)]), vec!["spawn 60 as 1 None"]);
    assert_eq!(
        frame(
            &mut world,
            70,
            vec![update(1, HEALTH, 3, 3), update(1, HEALTH, 6, 6), update(2, HEALTH, 1, 1)],
        ),
        vec!["apply 60 100 [6]", "apply 51 100 [1]"]
    );
    assert_eq!(frame(&mut world, 70, vec![despawn(1)]), vec!["despawn 60"]);
    assert!(world.index.entity(NetworkId(1)).is_none());
    assert_eq!(world.index.entity(NetworkId(2)), Some(Entity(51)));
}

#[test]
fn flushing_between_calls_does_not_disturb_the_sends() {
    let mut net = server_net();
    net.accept_connection(ConnectionId(1));
    let mut state = SyncResourceSendState::default();
    let mut flushed = 0;
    for value in [1u8, 1, 2, 2, 3] {
        let score = Score(value);
        let seen = ResourceRef { value: &score, added: false, changed: true };
        let elapsed = state.seconds_since_send();
        sync::sync_resource(elapsed, &mut net, Some(seen), &mut state);
        flushed += sync::flush_network_outbox(&mut net).len();
    }
    assert_eq!(flushed, 3);
}
