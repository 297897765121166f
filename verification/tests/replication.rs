use std::collections::HashMap;
use std::time::Duration;

use bevy_networker_multiplayer::netmsg::WireType;
use bevy_networker_multiplayer::netres::{NetResource, ReplicationPacket};
use bevy_networker_multiplayer::replicated::{Entity, NetworkId};
use bevy_networker_multiplayer::sync;
use bevy_networker_multiplayer::sync::{
    ComponentRegistration, PrefabCandidate, PrefabId, PrefabRegistration, ReplicationWorld,
    ResourceRef, ResourceRegistration, ResourceUpdate, Seconds, SyncComponent, SyncResource,
    SyncResourceSendState, SyncResourceSettings, WorldCommand,
};

#[derive(Clone, Copy, Debug, PartialEq)]
struct Health(u32);

impl WireType for Health {
    const TYPE_PATH: &'static str = "replication::Health";

    fn encode(&self) -> Vec<u8> {
        bincode::serde::encode_to_vec(self.0, bincode::config::standard())
            .expect("health should serialize")
    }

    fn decode(bytes: &[u8]) -> Option<Self> {
        bincode::serde::decode_from_slice(bytes, bincode::config::standard())
            .ok()
            .map(|(value, _)| Health(value))
    }
}

impl SyncComponent for Health {}

#[derive(Clone, Copy, Debug, PartialEq)]
struct VisualPosition(f32, f32);

impl WireType for VisualPosition {
    const TYPE_PATH: &'static str = "replication::VisualPosition";

    fn encode(&self) -> Vec<u8> {
        bincode::serde::encode_to_vec((self.0, self.1), bincode::config::standard())
            .expect("position should serialize")
    }

    fn decode(bytes: &[u8]) -> Option<Self> {
        bincode::serde::decode_from_slice(bytes, bincode::config::standard())
            .ok()
            .map(|((x, y), _)| VisualPosition(x, y))
    }
}

impl SyncComponent for VisualPosition {}

#[derive(Clone, Copy, Debug, PartialEq)]
struct MatchState {
    score: u32,
}

impl WireType for MatchState {
    const TYPE_PATH: &'static str = "replication::MatchState";

    fn encode(&self) -> Vec<u8> {
        bincode::serde::encode_to_vec(self.score, bincode::config::standard())
            .expect("match state should serialize")
    }

    fn decode(bytes: &[u8]) -> Option<Self> {
        bincode::serde::decode_from_slice(bytes, bincode::config::standard())
            .ok()
            .map(|(score, _)| MatchState { score })
    }
}

impl SyncResource for MatchState {}

#[derive(Clone, Copy, Debug, PartialEq)]
struct SlowMatchState {
    score: u32,
}

impl WireType for SlowMatchState {
    const TYPE_PATH: &'static str = "replication::SlowMatchState";

    fn encode(&self) -> Vec<u8> {
        bincode::serde::encode_to_vec(self.score, bincode::config::standard())
            .expect("slow state should serialize")
    }

    fn decode(bytes: &[u8]) -> Option<Self> {
        bincode::serde::decode_from_slice(bytes, bincode::config::standard())
            .ok()
            .map(|(score, _)| SlowMatchState { score })
    }
}

impl SyncResource for SlowMatchState {}

#[derive(Clone, Copy, Debug, PartialEq)]
struct Transform {
    x: f32,
    y: f32,
}

/// What one entity of the store carries.
#[derive(Clone, Debug, Default)]
struct Parts {
    health: Option<Health>,
    position: Option<VisualPosition>,
    prefab: Option<PrefabId>,
    sprite: bool,
    transform: Option<Transform>,
}

type World = ReplicationWorld<(), (), ()>;

/// A peer with a small entity store.
struct Peer {
    world: World,
    store: HashMap<u64, Parts>,
    next_entity: u64,
    match_state: Option<MatchState>,
    match_state_changes: u32,
}

fn component_registrations() -> Vec<ComponentRegistration<()>> {
    vec![
        ComponentRegistration {
            type_path: Health::TYPE_PATH,
            wire_id: Health::wire_id(),
            handlers: (),
        },
        ComponentRegistration {
            type_path: VisualPosition::TYPE_PATH,
            wire_id: VisualPosition::wire_id(),
            handlers: (),
        },
    ]
}

fn resource_registrations() -> Vec<ResourceRegistration<()>> {
    vec![
        ResourceRegistration {
            type_path: MatchState::TYPE_PATH,
            wire_id: MatchState::wire_id(),
            handlers: (),
        },
        ResourceRegistration {
            type_path: SlowMatchState::TYPE_PATH,
            wire_id: SlowMatchState::wire_id(),
            handlers: (),
        },
    ]
}

fn prefab_registrations() -> Vec<PrefabRegistration<()>> {
    vec![PrefabRegistration {
        type_path: VisualPosition::TYPE_PATH,
        wire_id: VisualPosition::wire_id(),
        handlers: (),
    }]
}

impl Peer {
    fn new() -> Peer {
        let mut world = World::new();
        sync::register_sync_components(
            &mut world,
            &component_registrations(),
            &resource_registrations(),
            &prefab_registrations(),
        );
        Peer {
            world,
            store: HashMap::new(),
            next_entity: 500,
            match_state: None,
            match_state_changes: 0,
        }
    }

    fn server() -> Peer {
        let mut peer = Peer::new();
        peer.world.net.start_server();
        peer
    }

    fn spawn(&mut self, parts: Parts) -> Entity {
        let entity = Entity(self.next_entity);
        self.next_entity += 1;
        self.store.insert(entity.0, parts);
        entity
    }

    fn apply_incoming(&mut self) {
        let count = self.world.net.incoming_spawn_count();
        let fresh: Vec<Entity> = (0..count).map(|_| self.spawn(Parts::default())).collect();
        for command in sync::apply_incoming_packets(&mut self.world, &fresh) {
            self.execute(command);
        }
    }

    fn execute(&mut self, command: WorldCommand) {
        match command {
            WorldCommand::Spawn { entity, prefab, .. } => {
                if let Some(wire_id) = prefab {
                    assert_eq!(wire_id, VisualPosition::wire_id());
                    let parts = self.store.get_mut(&entity.0).unwrap();
                    parts.prefab = Some(PrefabId(wire_id));
                    parts.sprite = true;
                    parts.transform = Some(Transform { x: 0.0, y: 0.0 });
                }
            }
            WorldCommand::Despawn { entity } => {
                self.store.remove(&entity.0).expect("a despawned entity should exist");
            }
            WorldCommand::ApplyComponent { entity, component_wire_id, bytes } => {
                let parts = self.store.get_mut(&entity.0).unwrap();
                if component_wire_id == Health::wire_id() {
                    parts.health = Health::decode(&bytes);
                } else {
                    assert_eq!(component_wire_id, VisualPosition::wire_id());
                    let position = VisualPosition::decode(&bytes).unwrap();
                    parts.position = Some(position);
                    if let Some(transform) = &mut parts.transform {
                        transform.x = position.0;
                        transform.y = position.1;
                    }
                }
            }
            WorldCommand::ApplyResource { resource_wire_id, bytes } => {
                assert_eq!(resource_wire_id, MatchState::wire_id());
                if sync::apply_resource_update(&mut self.match_state, &bytes)
                    == ResourceUpdate::Replaced
                {
                    self.match_state_changes += 1;
                }
            }
        }
    }

    /// One frame of a server on which the given entities are new.
    fn send_new(&mut self, entities: &[Entity]) {
        let candidates: Vec<PrefabCandidate> = entities
            .iter()
            .map(|entity| PrefabCandidate {
                entity: *entity,
                prefab: self.store[&entity.0].prefab,
                matches: vec![self.store[&entity.0].position.is_some()],
            })
            .collect();
        for (entity, prefab) in sync::assign_prefab_ids(&candidates, &prefab_registrations()) {
            self.store.get_mut(&entity.0).unwrap().prefab = Some(prefab);
        }
        let tagged: Vec<(Entity, Option<PrefabId>)> = entities
            .iter()
            .map(|entity| (*entity, self.store[&entity.0].prefab))
            .collect();
        let assigned = sync::assign_network_ids(&mut self.world, &tagged);
        let mut healths: Vec<(NetworkId, &Health)> = Vec::new();
        let mut positions: Vec<(NetworkId, &VisualPosition)> = Vec::new();
        for (entity, network_id) in &assigned {
            let parts = &self.store[&entity.0];
            if let Some(health) = &parts.health {
                healths.push((*network_id, health));
            }
            if let Some(position) = &parts.position {
                positions.push((*network_id, position));
            }
        }
        sync::sync_component(&mut self.world.net, &mut self.world.sequence, &healths);
        sync::sync_component(&mut self.world.net, &mut self.world.sequence, &positions);
    }
}

/// A resource with what one system remembers of it.
struct Sender<T> {
    value: T,
    added: bool,
    changed: bool,
    state: SyncResourceSendState,
    settings: SyncResourceSettings,
}

impl<T: SyncResource> Sender<T> {
    fn new(value: T, settings: SyncResourceSettings) -> Sender<T> {
        Sender {
            value,
            added: true,
            changed: true,
            state: SyncResourceSendState::default(),
            settings,
        }
    }

    fn set(&mut self, value: T) {
        self.value = value;
        self.changed = true;
    }

    fn update(&mut self, net: &mut NetResource, delta: Duration) {
        let since = f32::from_bits(self.state.seconds_since_send().0);
        let elapsed = Seconds((since + delta.as_secs_f32()).to_bits());
        let resource =
            ResourceRef { value: &self.value, added: self.added, changed: self.changed };
        sync::sync_resource_with_settings(
            elapsed,
            net,
            Some(resource),
            &mut self.state,
            self.settings,
        );
        self.added = false;
        self.changed = false;
    }
}

fn every(seconds: f32) -> SyncResourceSettings {
    SyncResourceSettings {
        min_interval_seconds: Seconds(seconds.to_bits()),
        heartbeat_seconds: None,
    }
}

#[test]
fn replicated_entities_get_ids_and_updates() {
    let mut server = Peer::server();
    let entity = server.spawn(Parts { health: Some(Health(100)), ..Parts::default() });
    server.send_new(&[entity]);

    let network_id = server
        .world
        .index
        .network_id(entity)
        .expect("replicated entity should have a network id");
    assert_eq!(network_id.0, 0);

    let packets = server.world.net.drain_outbox();
    assert_eq!(packets.len(), 2);
    assert!(matches!(
        packets[0],
        ReplicationPacket::SpawnEntity { network_id: 0, prefab_wire_id: 0 }
    ));
    assert!(matches!(
        packets[1],
        ReplicationPacket::UpdateComponent { network_id: 0, component_wire_id: _, .. }
    ));
}

#[test]
fn replicated_resources_queue_and_apply_updates() {
    let mut server = Peer::server();
    let mut sender = Sender::new(MatchState { score: 7 }, SyncResourceSettings::default());
    sender.update(&mut server.world.net, Duration::ZERO);

    let packets = server.world.net.drain_outbox();
    assert_eq!(packets.len(), 1);

    let bytes = match &packets[0] {
        ReplicationPacket::UpdateResource { resource_wire_id, bytes } => {
            assert_eq!(*resource_wire_id, MatchState::wire_id());
            bytes.clone()
        }
        other => panic!("unexpected packet: {other:?}"),
    };

    let mut client = Peer::new();
    client.world.net.inject_packet(ReplicationPacket::UpdateResource {
        resource_wire_id: MatchState::wire_id(),
        bytes,
    });
    client.apply_incoming();

    let resource = client.match_state.expect("the resource should be there");
    assert_eq!(resource.score, 7);
}

#[test]
fn replicated_resources_skip_semantically_identical_changes() {
    let mut server = Peer::server();
    let mut sender = Sender::new(MatchState { score: 7 }, SyncResourceSettings::default());
    sender.update(&mut server.world.net, Duration::ZERO);
    assert_eq!(server.world.net.drain_outbox().len(), 1);

    sender.set(MatchState { score: 7 });
    sender.update(&mut server.world.net, Duration::ZERO);
    assert!(server.world.net.drain_outbox().is_empty());

    sender.set(MatchState { score: 8 });
    sender.update(&mut server.world.net, Duration::ZERO);
    assert_eq!(server.world.net.drain_outbox().len(), 1);
}

#[test]
fn replicated_resources_coalesce_fast_changes() {
    let mut server = Peer::server();
    let mut sender = Sender::new(SlowMatchState { score: 1 }, every(0.5));
    sender.update(&mut server.world.net, Duration::ZERO);
    assert_eq!(server.world.net.drain_outbox().len(), 1);

    sender.set(SlowMatchState { score: 2 });
    sender.update(&mut server.world.net, Duration::from_millis(100));
    assert!(server.world.net.drain_outbox().is_empty());

    sender.update(&mut server.world.net, Duration::from_secs(1));
    sender.update(&mut server.world.net, Duration::from_secs(1));
    let packets = server.world.net.drain_outbox();
    assert_eq!(packets.len(), 1);

    let bytes = match &packets[0] {
        ReplicationPacket::UpdateResource { bytes, .. } => bytes,
        other => panic!("unexpected packet: {other:?}"),
    };
    let state = SlowMatchState::decode(bytes).expect("slow state should deserialize");
    assert_eq!(state.score, 2);
}

#[test]
fn duplicate_resource_packets_do_not_mark_resource_changed() {
    let bytes = MatchState { score: 7 }.encode();

    let mut client = Peer::new();
    client.match_state = Some(MatchState { score: 7 });
    client.world.net.inject_packet(ReplicationPacket::UpdateResource {
        resource_wire_id: MatchState::wire_id(),
        bytes,
    });
    client.apply_incoming();

    assert_eq!(client.match_state_changes, 0);
    assert_eq!(client.match_state, Some(MatchState { score: 7 }));
}

#[test]
fn component_updates_wait_for_spawn_entity() {
    let mut client = Peer::new();
    let bytes = Health(42).encode();

    client.world.net.inject_packet(ReplicationPacket::UpdateComponent {
        network_id: 9,
        component_wire_id: Health::wire_id(),
        sequence: 1,
        bytes,
    });
    client.apply_incoming();
    assert!(client.world.index.entity(NetworkId(9)).is_none());

    client
        .world
        .net
        .inject_packet(ReplicationPacket::SpawnEntity { network_id: 9, prefab_wire_id: 0 });
    client.apply_incoming();

    let entity = client
        .world
        .index
        .entity(NetworkId(9))
        .expect("spawn packet should create the replicated entity");
    assert_eq!(client.store[&entity.0].health.unwrap().0, 42);
}

#[test]
fn prefab_spawn_packets_create_client_visuals() {
    let mut server = Peer::server();
    let shown = server.spawn(Parts {
        position: Some(VisualPosition(12.0, 34.0)),
        ..Parts::default()
    });
    server.send_new(&[shown]);

    let packets = server.world.net.drain_outbox();
    assert!(packets.iter().any(|packet| matches!(
        packet,
        ReplicationPacket::SpawnEntity { network_id: 0, prefab_wire_id }
            if *prefab_wire_id == VisualPosition::wire_id()
    )));

    let mut client = Peer::new();
    for packet in packets {
        client.world.net.inject_packet(packet);
    }
    client.apply_incoming();

    let entity = client
        .world
        .index
        .entity(NetworkId(0))
        .expect("spawn packet should create the replicated entity");
    let parts = &client.store[&entity.0];
    let transform = parts.transform.expect("prefab should insert a transform");

    assert!(parts.sprite);
    assert_eq!(transform.x, 12.0);
    assert_eq!(transform.y, 34.0);
}
