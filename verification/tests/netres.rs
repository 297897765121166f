use bevy_networker_multiplayer::netmsg::{NetMessage, WireType};
use bevy_networker_multiplayer::netres::{
    Channel, ConnectionId, NetResource, RawNetMessage, ReplicationPacket, ServerAddress,
    JOIN_ATTEMPTS, JOIN_INTERVAL_MILLIS,
};
use bevy_networker_multiplayer::wire::{encode_message, encode_packet, WireError};

#[derive(Debug, PartialEq)]
struct Chat(String);

impl WireType for Chat {
    const TYPE_PATH: &'static str = "netres::Chat";

    fn encode(&self) -> Vec<u8> {
        self.0.as_bytes().to_vec()
    }

    fn decode(bytes: &[u8]) -> Option<Self> {
        String::from_utf8(bytes.to_vec()).ok().map(Chat)
    }
}

impl NetMessage for Chat {}

#[derive(Debug, PartialEq)]
struct Shoot(u8);

impl WireType for Shoot {
    const TYPE_PATH: &'static str = "netres::Shoot";

    fn encode(&self) -> Vec<u8> {
        vec![self.0]
    }

    fn decode(bytes: &[u8]) -> Option<Self> {
        if bytes.len() == 1 {
            Some(Shoot(bytes[0]))
        } else {
            None
        }
    }
}

impl NetMessage for Shoot {}

fn despawn(network_id: u64) -> ReplicationPacket {
    ReplicationPacket::DespawnEntity { network_id }
}

fn ids(packets: &[ReplicationPacket]) -> Vec<u64> {
    packets
        .iter()
        .map(|packet| match packet {
            ReplicationPacket::DespawnEntity { network_id } => *network_id,
            other => panic!("unexpected packet: {other:?}"),
        })
        .collect()
}

#[test]
fn role_is_unknown_until_started() {
    let mut net = NetResource::new();
    assert!(!net.is_server());
    assert!(!NetResource::default().is_server());
    net.start_server();
    assert!(net.is_server());
}

#[test]
fn joining_announces_the_client() {
    let mut net = NetResource::new();
    let address = ServerAddress::V4 { octets: [127, 0, 0, 1], port: 5001 };
    let sends = net.join_server(address, ConnectionId(3));
    assert!(!net.is_server());
    assert_eq!(JOIN_ATTEMPTS, 20);
    assert_eq!(JOIN_INTERVAL_MILLIS, 100);
    assert_eq!(sends.len(), 20);
    for send in &sends {
        assert_eq!(send.connection, ConnectionId(3));
        assert_eq!(send.channel.name(), "__networker_join__");
        assert!(send.payload.is_empty());
        assert!(!send.reliable);
    }
    net.queue_packet(despawn(1));
    assert_eq!(net.flush_outbox().len(), 1);
}

#[test]
fn flush_reaches_every_peer_in_order() {
    let mut net = NetResource::new();
    net.start_server();
    net.accept_connection(ConnectionId(1));
    net.accept_connection(ConnectionId(2));
    net.queue_packet(despawn(7));
    net.queue_packet(ReplicationPacket::UpdateComponent {
        network_id: 7,
        component_wire_id: 8,
        sequence: 9,
        bytes: vec![1],
    });
    net.queue_message(Shoot(5));
    let sends = net.flush_outbox();
    let told: Vec<(u64, &str, bool)> = sends
        .iter()
        .map(|send| (send.connection.0, send.channel.name(), send.reliable))
        .collect();
    assert_eq!(
        told,
        vec![
            (1, "replication", true),
            (2, "replication", true),
            (1, "replication", false),
            (2, "replication", false),
            (1, "netmsg", false),
            (2, "netmsg", false),
        ]
    );
    assert_eq!(sends[0].payload, encode_packet(&despawn(7)));
    assert_eq!(
        sends[4].payload,
        encode_message(&RawNetMessage { wire_id: Shoot::wire_id(), bytes: vec![5] })
    );
    assert!(net.flush_outbox().is_empty());
}

#[test]
fn queues_wait_until_somebody_is_connected() {
    let mut net = NetResource::new();
    net.start_server();
    net.queue_packet(despawn(1));
    net.queue_message(Shoot(1));
    assert!(net.flush_outbox().is_empty());
    net.accept_connection(ConnectionId(4));
    assert_eq!(net.flush_outbox().len(), 2);
}

#[test]
fn sent_packets_are_received() {
    let mut server = NetResource::new();
    server.start_server();
    server.accept_connection(ConnectionId(1));
    server.queue_packet(despawn(11));
    server.queue_packet(despawn(12));
    let mut client = NetResource::new();
    for send in server.flush_outbox() {
        assert_eq!(send.channel, Channel::Replication);
        assert_eq!(client.receive_replication(&send.payload), Ok(()));
    }
    assert_eq!(ids(&client.drain_inbox()), vec![11, 12]);
    assert!(client.drain_inbox().is_empty());
}

#[test]
fn damaged_packets_are_reported_and_dropped() {
    let mut net = NetResource::new();
    assert_eq!(net.receive_replication(&[]), Err(WireError::BadField));
    assert_eq!(net.receive_replication(&[9]), Err(WireError::UnknownVariant(9)));
    assert!(net.drain_inbox().is_empty());
    net.receive_message(&[1]);
    assert!(net.drain_message_inbox().is_empty());
}

#[test]
fn direct_sends_bypass_the_queues() {
    let net = NetResource::new();
    let send = net.send_packet_to(ConnectionId(6), &despawn(2));
    assert_eq!(send.connection, ConnectionId(6));
    assert_eq!(send.payload, encode_packet(&despawn(2)));
    assert!(send.reliable);
}

#[test]
fn new_connections_are_handed_out_once() {
    let mut net = NetResource::new();
    net.accept_connection(ConnectionId(1));
    net.accept_connection(ConnectionId(2));
    assert!(net.has_new_connections());
    assert_eq!(net.drain_new_connections(), vec![ConnectionId(1), ConnectionId(2)]);
    assert!(!net.has_new_connections());
    assert!(net.drain_new_connections().is_empty());
}

#[test]
fn typed_messages_come_back_and_others_stay() {
    let mut sender = NetResource::new();
    sender.accept_connection(ConnectionId(1));
    sender.queue_message(Shoot(1));
    sender.queue_message(Chat("hello".to_string()));
    sender.queue_message(Shoot(2));
    sender.queue_raw_message(RawNetMessage { wire_id: Shoot::wire_id(), bytes: vec![1, 2] });
    let mut receiver = NetResource::new();
    for send in sender.flush_outbox() {
        receiver.receive_message(&send.payload);
    }
    assert_eq!(receiver.drain_messages::<Shoot>(), vec![Shoot(1), Shoot(2)]);
    assert_eq!(receiver.drain_messages::<Chat>(), vec![Chat("hello".to_string())]);
    assert!(receiver.drain_messages::<Shoot>().is_empty());
    assert!(receiver.drain_messages::<Chat>().is_empty());
    let left = receiver.drain_message_inbox();
    assert_eq!(left.len(), 1);
    assert_eq!(left[0].bytes, vec![1, 2]);
}

#[test]
fn packets_know_their_kind_and_reliability() {
    let spawn = ReplicationPacket::SpawnEntity { network_id: 0, prefab_wire_id: 0 };
    let component = ReplicationPacket::UpdateComponent {
        network_id: 0,
        component_wire_id: 0,
        sequence: 0,
        bytes: Vec::new(),
    };
    let resource = ReplicationPacket::UpdateResource { resource_wire_id: 0, bytes: Vec::new() };
    let told: Vec<(&str, bool)> = [spawn, despawn(0), component, resource]
        .iter()
        .map(|packet| (packet.kind(), packet.requires_reliable_delivery()))
        .collect();
    assert_eq!(
        told,
        vec![
            ("SpawnEntity", true),
            ("DespawnEntity", true),
            ("UpdateComponent", false),
            ("UpdateResource", true),
        ]
    );
}

#[test]
fn polling_changes_nothing() {
    let mut net = NetResource::new();
    net.inject_packet(despawn(3));
    net.poll_incoming();
    assert_eq!(net.incoming_spawn_count(), 0);
    assert_eq!(ids(&net.drain_inbox()), vec![3]);
}

#[test]
fn queued_messages_are_sent_after_the_others() {
    let mut net = NetResource::new();
    net.accept_connection(ConnectionId(1));
    net.queue_message(Shoot(1));
    net.queue_message(Shoot(2));
    net.queue_packet(despawn(3));
    assert_eq!(ids(&net.drain_outbox()), vec![3]);
    assert!(net.drain_inbox().is_empty());
    assert!(net.drain_message_inbox().is_empty());
    let payloads: Vec<Vec<u8>> = net.flush_outbox().into_iter().map(|send| send.payload).collect();
    let expected = |byte: u8| {
        encode_message(&RawNetMessage { wire_id: Shoot::wire_id(), bytes: vec![byte] })
    };
    assert_eq!(payloads, vec![expected(1), expected(2)]);
}

#[test]
fn clients_may_join_either_kind_of_address() {
    let mut net = NetResource::new();
    let address =
        ServerAddress::V6 { segments: [0, 0, 0, 0, 0, 0, 0, 1], port: 5001, scope_id: 0 };
    assert_eq!(net.join_server(address, ConnectionId(1)).len(), 20);
    assert!(!net.is_server());
}
