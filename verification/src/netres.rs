//! Packets, messages and the queues between the game state and the transport.
use vstd::prelude::*;

use crate::netmsg;
use crate::netmsg::NetMessage;
use crate::wire;
use crate::wire::WireError;

verus! {

/// Packet types used by entity and resource replication.
#[derive(Debug)]
pub enum ReplicationPacket {
    /// Spawn a replicated entity, optionally with a prefab.
    SpawnEntity { network_id: u64, prefab_wire_id: u64 },
    /// Despawn a replicated entity.
    DespawnEntity { network_id: u64 },
    /// Update a replicated component on one entity.
    UpdateComponent { network_id: u64, component_wire_id: u64, sequence: u64, bytes: Vec<u8> },
    /// Replace a replicated resource snapshot.
    UpdateResource { resource_wire_id: u64, bytes: Vec<u8> },
}

/// What a [`ReplicationPacket`] says, its payload as a sequence of bytes.
#[verifier::ext_equal]
pub enum PacketView {
    SpawnEntity { network_id: u64, prefab_wire_id: u64 },
    DespawnEntity { network_id: u64 },
    UpdateComponent { network_id: u64, component_wire_id: u64, sequence: u64, bytes: Seq<u8> },
    UpdateResource { resource_wire_id: u64, bytes: Seq<u8> },
}

impl View for ReplicationPacket {
    type V = PacketView;

    open spec fn view(&self) -> PacketView {
        match *self {
            ReplicationPacket::SpawnEntity { network_id, prefab_wire_id } => {
                PacketView::SpawnEntity { network_id, prefab_wire_id }
            },
            ReplicationPacket::DespawnEntity { network_id } => {
                PacketView::DespawnEntity { network_id }
            },
            ReplicationPacket::UpdateComponent {
                network_id,
                component_wire_id,
                sequence,
                bytes,
            } => PacketView::UpdateComponent {
                network_id,
                component_wire_id,
                sequence,
                bytes: bytes@,
            },
            ReplicationPacket::UpdateResource { resource_wire_id, bytes } => {
                PacketView::UpdateResource { resource_wire_id, bytes: bytes@ }
            },
        }
    }
}

impl Clone for ReplicationPacket {
    fn clone(&self) -> (copy: Self)
        ensures
            copy@ == self@,
    {
        match self {
            ReplicationPacket::SpawnEntity { network_id, prefab_wire_id } => {
                ReplicationPacket::SpawnEntity {
                    network_id: *network_id,
                    prefab_wire_id: *prefab_wire_id,
                }
            },
            ReplicationPacket::DespawnEntity { network_id } => {
                ReplicationPacket::DespawnEntity { network_id: *network_id }
            },
            ReplicationPacket::UpdateComponent {
                network_id,
                component_wire_id,
                sequence,
                bytes,
            } => ReplicationPacket::UpdateComponent {
                network_id: *network_id,
                component_wire_id: *component_wire_id,
                sequence: *sequence,
                bytes: bytes.clone(),
            },
            ReplicationPacket::UpdateResource { resource_wire_id, bytes } => {
                ReplicationPacket::UpdateResource {
                    resource_wire_id: *resource_wire_id,
                    bytes: bytes.clone(),
                }
            },
        }
    }
}

/// Raw wire payload for a typed network message.
#[derive(Debug)]
pub struct RawNetMessage {
    /// Stable wire identifier for the message type.
    pub wire_id: u64,
    /// Serialized message bytes.
    pub bytes: Vec<u8>,
}

/// What a [`RawNetMessage`] says, its payload as a sequence of bytes.
#[verifier::ext_equal]
pub struct MessageView {
    pub wire_id: u64,
    pub bytes: Seq<u8>,
}

impl View for RawNetMessage {
    type V = MessageView;

    open spec fn view(&self) -> MessageView {
        MessageView { wire_id: self.wire_id, bytes: self.bytes@ }
    }
}

impl Clone for RawNetMessage {
    fn clone(&self) -> (copy: Self)
        ensures
            copy@ == self@,
    {
        RawNetMessage { wire_id: self.wire_id, bytes: self.bytes.clone() }
    }
}

/// Whether a packet must not be lost: everything but component updates, which
/// the next update of the same component replaces.
pub open spec fn needs_reliability(packet: PacketView) -> bool {
    !(packet is UpdateComponent)
}

/// The name of a packet's kind.
pub open spec fn kind_name(packet: PacketView) -> Seq<char> {
    match packet {
        PacketView::SpawnEntity { .. } => "SpawnEntity"@,
        PacketView::DespawnEntity { .. } => "DespawnEntity"@,
        PacketView::UpdateComponent { .. } => "UpdateComponent"@,
        PacketView::UpdateResource { .. } => "UpdateResource"@,
    }
}

impl ReplicationPacket {
    /// Whether the transport must deliver the packet reliably.
    pub fn requires_reliable_delivery(&self) -> (reliable: bool)
        ensures
            reliable == needs_reliability(self@),
    {
        match self {
            ReplicationPacket::SpawnEntity { .. } => true,
            ReplicationPacket::DespawnEntity { .. } => true,
            ReplicationPacket::UpdateComponent { .. } => false,
            ReplicationPacket::UpdateResource { .. } => true,
        }
    }

    /// The name of the packet's kind, for diagnostics.
    pub fn kind(&self) -> (name: &'static str)
        ensures
            name@ == kind_name(self@),
    {
        match self {
            ReplicationPacket::SpawnEntity { .. } => "SpawnEntity",
            ReplicationPacket::DespawnEntity { .. } => "DespawnEntity",
            ReplicationPacket::UpdateComponent { .. } => "UpdateComponent",
            ReplicationPacket::UpdateResource { .. } => "UpdateResource",
        }
    }
}

/// Handle of one connected peer. The transport gives it out and knows the
/// socket behind it.
#[derive(Debug, Clone, Copy, PartialEq, Eq, Structural)]
pub struct ConnectionId(pub u64);

/// Transport event that a payload is sent under.
#[derive(Debug, Clone, Copy, PartialEq, Eq, Structural)]
pub enum Channel {
    /// Replication packets.
    Replication,
    /// Typed network messages.
    Message,
    /// A client's announcement to the server.
    Join,
}

/// The event name of a channel.
pub open spec fn channel_name(channel: Channel) -> Seq<char> {
    match channel {
        Channel::Replication => "replication"@,
        Channel::Message => "netmsg"@,
        Channel::Join => "__networker_join__"@,
    }
}

impl Channel {
    /// The event name that the transport carries.
    pub fn name(&self) -> (name: &'static str)
        ensures
            name@ == channel_name(*self),
    {
        match self {
            Channel::Replication => "replication",
            Channel::Message => "netmsg",
            Channel::Join => "__networker_join__",
        }
    }
}

/// One payload for the transport to send to one peer.
#[derive(Debug)]
pub struct Transmission {
    pub connection: ConnectionId,
    pub channel: Channel,
    pub payload: Vec<u8>,
    pub reliable: bool,
}

/// What a [`Transmission`] says, its payload as a sequence of bytes.
#[verifier::ext_equal]
pub struct TransmissionView {
    pub connection: ConnectionId,
    pub channel: Channel,
    pub payload: Seq<u8>,
    pub reliable: bool,
}

impl View for Transmission {
    type V = TransmissionView;

    open spec fn view(&self) -> TransmissionView {
        TransmissionView {
            connection: self.connection,
            channel: self.channel,
            payload: self.payload@,
            reliable: self.reliable,
        }
    }
}

/// What each packet of a list says.
pub open spec fn packet_views(packets: Seq<ReplicationPacket>) -> Seq<PacketView> {
    packets.map_values(|packet: ReplicationPacket| packet@)
}

/// What each message of a list says.
pub open spec fn message_views(messages: Seq<RawNetMessage>) -> Seq<MessageView> {
    messages.map_values(|message: RawNetMessage| message@)
}

/// What each transmission of a list says.
pub open spec fn transmission_views(sends: Seq<Transmission>) -> Seq<TransmissionView> {
    sends.map_values(|send: Transmission| send@)
}

/// The spawn packets of a list.
pub open spec fn spawns(packets: Seq<PacketView>) -> Seq<PacketView> {
    packets.filter(|packet: PacketView| packet is SpawnEntity)
}

/// Counts the spawn packets of a list.
pub fn count_spawns(packets: &Vec<ReplicationPacket>) -> (count: usize)
    ensures
        count == spawns(packet_views(packets@)).len(),
{
    let ghost views = packet_views(packets@);
    let ghost is_spawn = |packet: PacketView| packet is SpawnEntity;
    let mut count: usize = 0;
    let mut index: usize = 0;
    proof {
        reveal(Seq::filter);
    }
    while index < packets.len()
        invariant
            index <= packets@.len(),
            count <= index,
            views == packet_views(packets@),
            is_spawn == (|packet: PacketView| packet is SpawnEntity),
            count == views.take(index as int).filter(is_spawn).len(),
        decreases packets@.len() - index,
    {
        proof {
            reveal(Seq::filter);
        }
        assert(views.take(index + 1).drop_last() =~= views.take(index as int));
        match &packets[index] {
            ReplicationPacket::SpawnEntity { .. } => {
                count = count + 1;
            },
            _ => {},
        }
        index = index + 1;
    }
    assert(views.take(index as int) =~= views);
    count
}

/// How a packet is sent to one peer.
pub open spec fn packet_send(packet: PacketView, connection: ConnectionId) -> TransmissionView {
    TransmissionView {
        connection,
        channel: Channel::Replication,
        payload: wire::packet_bytes(packet),
        reliable: needs_reliability(packet),
    }
}

/// How a message is sent to one peer.
pub open spec fn message_send(message: MessageView, connection: ConnectionId) -> TransmissionView {
    TransmissionView {
        connection,
        channel: Channel::Message,
        payload: wire::message_bytes(message),
        reliable: false,
    }
}

/// How a client announces itself to the server.
pub open spec fn join_send(connection: ConnectionId) -> TransmissionView {
    TransmissionView {
        connection,
        channel: Channel::Join,
        payload: Seq::empty(),
        reliable: false,
    }
}

/// A packet sent to each of the peers in turn.
pub open spec fn packet_fan_out(
    packet: PacketView,
    connections: Seq<ConnectionId>,
) -> Seq<TransmissionView> {
    connections.map_values(|connection: ConnectionId| packet_send(packet, connection))
}

/// A message sent to each of the peers in turn.
pub open spec fn message_fan_out(
    message: MessageView,
    connections: Seq<ConnectionId>,
) -> Seq<TransmissionView> {
    connections.map_values(|connection: ConnectionId| message_send(message, connection))
}

/// The packets in order, each sent to all of the peers before the next.
pub open spec fn broadcast_packets(
    packets: Seq<PacketView>,
    connections: Seq<ConnectionId>,
) -> Seq<TransmissionView>
    decreases packets.len(),
{
    if packets.len() == 0 {
        Seq::empty()
    } else {
        broadcast_packets(packets.drop_last(), connections) + packet_fan_out(
            packets.last(),
            connections,
        )
    }
}

/// The messages in order, each sent to all of the peers before the next.
pub open spec fn broadcast_messages(
    messages: Seq<MessageView>,
    connections: Seq<ConnectionId>,
) -> Seq<TransmissionView>
    decreases messages.len(),
{
    if messages.len() == 0 {
        Seq::empty()
    } else {
        broadcast_messages(messages.drop_last(), connections) + message_fan_out(
            messages.last(),
            connections,
        )
    }
}

/// Number of announcements that a joining client sends.
pub const JOIN_ATTEMPTS: u32 = 20;

/// Pause after each announcement, in milliseconds.
pub const JOIN_INTERVAL_MILLIS: u64 = 100;

/// Internet address and port of a server.
#[derive(Clone, Copy, Debug, PartialEq, Eq)]
pub enum ServerAddress {
    /// An address of four octets.
    V4 { octets: [u8; 4], port: u16 },
    /// An address of eight segments, with the zone that it holds in.
    V6 { segments: [u16; 8], port: u16, scope_id: u32 },
}

/// Networking state and packet queues of one peer.
#[derive(Debug)]
pub struct NetResource {
    is_server: Option<bool>,
    server_address: Option<ServerAddress>,
    connections: Vec<ConnectionId>,
    new_connections: Vec<ConnectionId>,
    outbox: Vec<ReplicationPacket>,
    inbox: Vec<ReplicationPacket>,
    message_outbox: Vec<RawNetMessage>,
    message_inbox: Vec<RawNetMessage>,
}

/// What a [`NetResource`] holds.
#[verifier::ext_equal]
pub struct NetView {
    /// Whether the peer runs as server, once it runs.
    pub is_server: Option<bool>,
    /// The server that a client joined.
    pub server_address: Option<ServerAddress>,
    /// Peers that broadcasts go to.
    pub connections: Seq<ConnectionId>,
    /// Peers that still need a snapshot of the world.
    pub new_connections: Seq<ConnectionId>,
    pub outbox: Seq<PacketView>,
    pub inbox: Seq<PacketView>,
    pub message_outbox: Seq<MessageView>,
    pub message_inbox: Seq<MessageView>,
}

impl NetView {
    /// Whether something is queued and somebody is there to receive it.
    pub open spec fn can_flush(self) -> bool {
        (self.outbox.len() > 0 || self.message_outbox.len() > 0) && self.connections.len() > 0
    }

    /// What a flush sends.
    pub open spec fn flush_sends(self) -> Seq<TransmissionView> {
        if self.can_flush() {
            broadcast_packets(self.outbox, self.connections) + broadcast_messages(
                self.message_outbox,
                self.connections,
            )
        } else {
            Seq::empty()
        }
    }

    /// What a flush leaves.
    pub open spec fn flushed(self) -> NetView {
        if self.can_flush() {
            NetView { outbox: Seq::empty(), message_outbox: Seq::empty(), ..self }
        } else {
            self
        }
    }
}

impl View for NetResource {
    type V = NetView;

    closed spec fn view(&self) -> NetView {
        NetView {
            is_server: self.is_server,
            server_address: self.server_address,
            connections: self.connections@,
            new_connections: self.new_connections@,
            outbox: packet_views(self.outbox@),
            inbox: packet_views(self.inbox@),
            message_outbox: message_views(self.message_outbox@),
            message_inbox: message_views(self.message_inbox@),
        }
    }
}

/// The state of a peer that has neither started nor joined a server.
pub open spec fn idle_net() -> NetView {
    NetView {
        is_server: None,
        server_address: None,
        connections: Seq::empty(),
        new_connections: Seq::empty(),
        outbox: Seq::empty(),
        inbox: Seq::empty(),
        message_outbox: Seq::empty(),
        message_inbox: Seq::empty(),
    }
}

/// The values among the outcomes, in order.
pub open spec fn decoded_values<T>(outcomes: Seq<Option<T>>) -> Seq<T>
    decreases outcomes.len(),
{
    if outcomes.len() == 0 {
        Seq::empty()
    } else {
        let earlier = decoded_values(outcomes.drop_last());
        match outcomes.last() {
            Some(value) => earlier.push(value),
            None => earlier,
        }
    }
}

/// The messages whose outcome is `None`, in order.
pub open spec fn undecoded_messages<T>(
    messages: Seq<MessageView>,
    outcomes: Seq<Option<T>>,
) -> Seq<MessageView>
    decreases messages.len(),
{
    if messages.len() == 0 {
        Seq::empty()
    } else {
        let earlier = undecoded_messages(messages.drop_last(), outcomes.drop_last());
        if outcomes.last() is Some {
            earlier
        } else {
            earlier.push(messages.last())
        }
    }
}

/// Whether the outcomes are those of picking messages of type `T` out of
/// `messages`: a message with the wire identifier of `T` was decoded, any
/// other passed over.
pub open spec fn picks<T: NetMessage>(
    messages: Seq<MessageView>,
    outcomes: Seq<Option<T>>,
) -> bool {
    &&& outcomes.len() == messages.len()
    &&& forall|i: int|
        #![trigger outcomes[i]]
        #![trigger messages[i]]
        0 <= i < messages.len() ==> if messages[i].wire_id == netmsg::wire_id_of::<T>() {
            netmsg::decodes_to::<T>(messages[i].bytes, outcomes[i])
        } else {
            outcomes[i] is None
        }
}

/// The messages of a list of messages with their outcomes.
pub open spec fn judged_messages<T>(judged: Seq<(RawNetMessage, Option<T>)>) -> Seq<MessageView> {
    judged.map_values(|pair: (RawNetMessage, Option<T>)| pair.0@)
}

/// The outcomes of a list of messages with their outcomes.
pub open spec fn judged_outcomes<T>(judged: Seq<(RawNetMessage, Option<T>)>) -> Seq<Option<T>> {
    judged.map_values(|pair: (RawNetMessage, Option<T>)| pair.1)
}

/// Parts messages into the values that some of them decoded to and the other
/// messages, both in order.
pub fn split_messages<T>(judged: Vec<(RawNetMessage, Option<T>)>) -> (parts: (
    Vec<T>,
    Vec<RawNetMessage>,
))
    ensures
        parts.0@ == decoded_values(judged_outcomes(judged@)),
        message_views(parts.1@) == undecoded_messages(
            judged_messages(judged@),
            judged_outcomes(judged@),
        ),
{
    let mut matched: Vec<T> = Vec::new();
    let mut unmatched: Vec<RawNetMessage> = Vec::new();
    let ghost messages = judged_messages(judged@);
    let ghost outcomes = judged_outcomes(judged@);
    assert(message_views(unmatched@) =~= Seq::<MessageView>::empty());
    assert(messages.take(0) =~= Seq::<MessageView>::empty());
    assert(outcomes.take(0) =~= Seq::<Option<T>>::empty());
    for pair in iter: judged
        invariant
            iter.seq() == judged@,
            messages == judged_messages(judged@),
            outcomes == judged_outcomes(judged@),
            matched@ == decoded_values(outcomes.take(iter.index() as int)),
            message_views(unmatched@) == undecoded_messages(
                messages.take(iter.index() as int),
                outcomes.take(iter.index() as int),
            ),
    {
        let ghost done = iter.index() as int;
        let ghost before = unmatched@;
        assert(messages.take(done + 1).drop_last() =~= messages.take(done));
        assert(outcomes.take(done + 1).drop_last() =~= outcomes.take(done));
        let (message, outcome) = pair;
        match outcome {
            Some(value) => {
                matched.push(value);
            },
            None => {
                unmatched.push(message);
                assert(message_views(unmatched@) =~= message_views(before).push(message@));
            },
        }
    }
    assert(messages.take(judged@.len() as int) =~= messages);
    assert(outcomes.take(judged@.len() as int) =~= outcomes);
    (matched, unmatched)
}

impl Default for NetResource {
    fn default() -> (net: Self)
        ensures
            net@ == idle_net(),
    {
        let net = NetResource {
            is_server: None,
            server_address: None,
            connections: Vec::new(),
            new_connections: Vec::new(),
            outbox: Vec::new(),
            inbox: Vec::new(),
            message_outbox: Vec::new(),
            message_inbox: Vec::new(),
        };
        assert(net@ =~= idle_net());
        net
    }
}

impl NetResource {
    /// Creates an empty networking resource.
    pub fn new() -> (net: Self)
        ensures
            net@ == idle_net(),
    {
        NetResource::default()
    }

    /// Returns `true` when the resource is currently running as server.
    pub fn is_server(&self) -> (server: bool)
        ensures
            server == (self@.is_server == Some(true)),
    {
        match self.is_server {
            Some(server) => server,
            None => false,
        }
    }

    /// Takes on the server's part.
    pub fn start_server(&mut self)
        ensures
            final(self)@ == (NetView { is_server: Some(true), ..old(self)@ }),
    {
        self.is_server = Some(true);
    }

    /// Takes in a peer that connected to the server: broadcasts reach it from
    /// now on, and a snapshot of the world is due to it.
    pub fn accept_connection(&mut self, connection: ConnectionId)
        ensures
            final(self)@ == (NetView {
                connections: old(self)@.connections.push(connection),
                new_connections: old(self)@.new_connections.push(connection),
                ..old(self)@
            }),
    {
        self.new_connections.push(connection);
        self.connections.push(connection);
    }

    /// Takes on the part of a client of the server behind `connection`.
    /// Returns the announcements to send, one after each join interval.
    pub fn join_server(&mut self, server_address: ServerAddress, connection: ConnectionId) -> (sends:
        Vec<Transmission>)
        ensures
            final(self)@ == (NetView {
                is_server: Some(false),
                server_address: Some(server_address),
                connections: old(self)@.connections.push(connection),
                ..old(self)@
            }),
            transmission_views(sends@) == Seq::new(
                JOIN_ATTEMPTS as nat,
                |i: int| join_send(connection),
            ),
    {
        self.bind_client_socket(connection);
        let mut sends: Vec<Transmission> = Vec::new();
        let mut attempt: u32 = 0;
        while attempt < JOIN_ATTEMPTS
            invariant
                attempt <= JOIN_ATTEMPTS,
                sends@.len() == attempt,
                forall|i: int| 0 <= i < attempt ==> (#[trigger] sends@[i])@ == join_send(connection),
            decreases JOIN_ATTEMPTS - attempt,
        {
            let send = Transmission {
                connection,
                channel: Channel::Join,
                payload: Vec::new(),
                reliable: false,
            };
            assert(send@ =~= join_send(connection));
            sends.push(send);
            attempt = attempt + 1;
        }
        assert(transmission_views(sends@) =~= Seq::new(
            JOIN_ATTEMPTS as nat,
            |i: int| join_send(connection),
        ));
        self.server_address = Some(server_address);
        self.is_server = Some(false);
        sends
    }

    /// Sends broadcasts to a client's server from now on.
    fn bind_client_socket(&mut self, connection: ConnectionId)
        ensures
            final(self)@ == (NetView {
                connections: old(self)@.connections.push(connection),
                ..old(self)@
            }),
    {
        self.connections.push(connection);
    }

    /// Takes in the payload of a replication event. A payload that is no
    /// packet is dropped and reported.
    pub fn receive_replication(&mut self, payload: &[u8]) -> (result: Result<(), WireError>)
        ensures
            match wire::read_packet(payload@) {
                Ok(packet) => {
                    &&& result == Ok::<(), WireError>(())
                    &&& final(self)@ == (NetView {
                        inbox: old(self)@.inbox.push(packet),
                        ..old(self)@
                    })
                },
                Err(error) => {
                    &&& result == Err::<(), WireError>(error)
                    &&& final(self)@ == old(self)@
                },
            },
    {
        match wire::decode_packet(payload) {
            Ok(packet) => {
                self.inject_packet(packet);
                Ok(())
            },
            Err(error) => Err(error),
        }
    }

    /// Takes in the payload of a message event. A payload that is no message
    /// is dropped.
    pub fn receive_message(&mut self, payload: &[u8])
        ensures
            final(self)@ == (match wire::read_message(payload@) {
                Ok(message) => NetView {
                    message_inbox: old(self)@.message_inbox.push(message),
                    ..old(self)@
                },
                Err(_) => old(self)@,
            }),
    {
        match wire::decode_message(payload) {
            Ok(message) => {
                let ghost before = self.message_inbox@;
                self.message_inbox.push(message);
                assert(message_views(self.message_inbox@) =~= message_views(before).push(message@));
            },
            Err(_) => {},
        }
    }

    /// Adds a replication packet to the outgoing queue.
    pub fn queue_packet(&mut self, packet: ReplicationPacket)
        ensures
            final(self)@ == (NetView { outbox: old(self)@.outbox.push(packet@), ..old(self)@ }),
    {
        let ghost before = self.outbox@;
        self.outbox.push(packet);
        assert(packet_views(self.outbox@) =~= packet_views(before).push(packet@));
    }

    /// Prepares a replication packet for one peer, past the queues.
    pub fn send_packet_to(&self, connection: ConnectionId, packet: &ReplicationPacket) -> (send:
        Transmission)
        ensures
            send@ == packet_send(packet@, connection),
    {
        let send = Transmission {
            connection,
            channel: Channel::Replication,
            payload: wire::encode_packet(packet),
            reliable: packet.requires_reliable_delivery(),
        };
        assert(send@ =~= packet_send(packet@, connection));
        send
    }

    /// Injects a packet directly into the incoming queue.
    pub fn inject_packet(&mut self, packet: ReplicationPacket)
        ensures
            final(self)@ == (NetView { inbox: old(self)@.inbox.push(packet@), ..old(self)@ }),
    {
        let ghost before = self.inbox@;
        self.inbox.push(packet);
        assert(packet_views(self.inbox@) =~= packet_views(before).push(packet@));
    }

    /// Queues a typed network message for broadcast.
    pub fn queue_message<T: NetMessage>(&mut self, message: T)
        ensures
            exists|bytes: Seq<u8>| #[trigger]
                netmsg::encodes_to(&message, bytes) && final(self)@ == (NetView {
                    message_outbox: old(self)@.message_outbox.push(
                        MessageView { wire_id: netmsg::wire_id_of::<T>(), bytes },
                    ),
                    ..old(self)@
                }),
    {
        let bytes = message.encode();
        assert(netmsg::encodes_to(&message, bytes@));
        self.queue_raw_message(RawNetMessage { wire_id: T::wire_id(), bytes });
    }

    /// Queues an already serialised message for broadcast.
    pub fn queue_raw_message(&mut self, message: RawNetMessage)
        ensures
            final(self)@ == (NetView {
                message_outbox: old(self)@.message_outbox.push(message@),
                ..old(self)@
            }),
    {
        let ghost before = self.message_outbox@;
        self.message_outbox.push(message);
        assert(message_views(self.message_outbox@) =~= message_views(before).push(message@));
    }

    /// Drains all queued outgoing replication packets.
    pub fn drain_outbox(&mut self) -> (packets: Vec<ReplicationPacket>)
        ensures
            packet_views(packets@) == old(self)@.outbox,
            final(self)@ == (NetView { outbox: Seq::empty(), ..old(self)@ }),
    {
        let mut packets: Vec<ReplicationPacket> = Vec::new();
        std::mem::swap(&mut packets, &mut self.outbox);
        assert(packet_views(self.outbox@) =~= Seq::<PacketView>::empty());
        packets
    }

    /// Drains all received replication packets.
    pub fn drain_inbox(&mut self) -> (packets: Vec<ReplicationPacket>)
        ensures
            packet_views(packets@) == old(self)@.inbox,
            final(self)@ == (NetView { inbox: Seq::empty(), ..old(self)@ }),
    {
        let mut packets: Vec<ReplicationPacket> = Vec::new();
        std::mem::swap(&mut packets, &mut self.inbox);
        assert(packet_views(self.inbox@) =~= Seq::<PacketView>::empty());
        packets
    }

    /// Counts the spawn packets among the received packets.
    pub fn incoming_spawn_count(&self) -> (count: usize)
        ensures
            count == spawns(self@.inbox).len(),
    {
        count_spawns(&self.inbox)
    }

    /// Drains the peers that connected since the last snapshot broadcast.
    pub fn drain_new_connections(&mut self) -> (connections: Vec<ConnectionId>)
        ensures
            connections@ == old(self)@.new_connections,
            final(self)@ == (NetView { new_connections: Seq::empty(), ..old(self)@ }),
    {
        let mut connections: Vec<ConnectionId> = Vec::new();
        std::mem::swap(&mut connections, &mut self.new_connections);
        connections
    }

    /// Whether peers connected since the last snapshot broadcast.
    pub fn has_new_connections(&self) -> (waiting: bool)
        ensures
            waiting == (self@.new_connections.len() > 0),
    {
        !self.new_connections.is_empty()
    }

    /// Drains all queued outgoing messages.
    fn drain_message_outbox(&mut self) -> (messages: Vec<RawNetMessage>)
        ensures
            message_views(messages@) == old(self)@.message_outbox,
            final(self)@ == (NetView { message_outbox: Seq::empty(), ..old(self)@ }),
    {
        let mut messages: Vec<RawNetMessage> = Vec::new();
        std::mem::swap(&mut messages, &mut self.message_outbox);
        assert(message_views(self.message_outbox@) =~= Seq::<MessageView>::empty());
        messages
    }

    /// Drains raw messages regardless of wire type.
    pub fn drain_message_inbox(&mut self) -> (messages: Vec<RawNetMessage>)
        ensures
            message_views(messages@) == old(self)@.message_inbox,
            final(self)@ == (NetView { message_inbox: Seq::empty(), ..old(self)@ }),
    {
        let mut messages: Vec<RawNetMessage> = Vec::new();
        std::mem::swap(&mut messages, &mut self.message_inbox);
        assert(message_views(self.message_inbox@) =~= Seq::<MessageView>::empty());
        messages
    }

    /// Extracts only messages of type `T`, leaving the rest queued.
    pub fn drain_messages<T: NetMessage>(&mut self) -> (drained: Vec<T>)
        ensures
            exists|outcomes: Seq<Option<T>>| #[trigger]
                picks::<T>(old(self)@.message_inbox, outcomes) && drained@ == decoded_values(
                    outcomes,
                ) && final(self)@ == (NetView {
                    message_inbox: undecoded_messages(old(self)@.message_inbox, outcomes),
                    ..old(self)@
                }),
    {
        let messages = self.drain_message_inbox();
        let ghost views = message_views(messages@);
        let wire_id = T::wire_id();
        let mut judged: Vec<(RawNetMessage, Option<T>)> = Vec::new();
        for message in iter: messages
            invariant
                iter.seq() == messages@,
                views == message_views(messages@),
                wire_id == netmsg::wire_id_of::<T>(),
                judged@.len() == iter.index(),
                forall|i: int|
                    #![trigger judged@[i]]
                    0 <= i < judged@.len() ==> {
                        &&& judged@[i].0@ == views[i]
                        &&& if views[i].wire_id == wire_id {
                            netmsg::decodes_to::<T>(views[i].bytes, judged@[i].1)
                        } else {
                            judged@[i].1 is None
                        }
                    },
        {
            let outcome = if message.wire_id == wire_id {
                T::decode(message.bytes.as_slice())
            } else {
                None
            };
            assert(message@ == views[iter.index() as int]);
            judged.push((message, outcome));
        }
        proof {
            let outcomes = judged_outcomes(judged@);
            assert(judged_messages(judged@) =~= views);
            assert forall|i: int| 0 <= i < views.len() implies if views[i].wire_id
                == netmsg::wire_id_of::<T>() {
                netmsg::decodes_to::<T>(views[i].bytes, #[trigger] outcomes[i])
            } else {
                outcomes[i] is None
            } by {
                assert(judged@[i].0@ == views[i]);
            }
            assert(picks::<T>(views, outcomes));
        }
        let (matched, unmatched) = split_messages(judged);
        self.message_inbox = unmatched;
        matched
    }

    /// Serializes all queued packets and messages and hands them out for all
    /// connected peers. With nothing queued or nobody connected, everything
    /// stays as it is.
    pub fn flush_outbox(&mut self) -> (sends: Vec<Transmission>)
        ensures
            transmission_views(sends@) == old(self)@.flush_sends(),
            final(self)@ == old(self)@.flushed(),
    {
        let mut sends: Vec<Transmission> = Vec::new();
        if (self.outbox.is_empty() && self.message_outbox.is_empty())
            || self.connections.is_empty() {
            assert(transmission_views(sends@) =~= Seq::<TransmissionView>::empty());
            return sends;
        }
        let packets = self.drain_outbox();
        let messages = self.drain_message_outbox();
        let ghost before = old(self)@;
        let ghost packet_list = packet_views(packets@);
        let ghost message_list = message_views(messages@);
        assert(transmission_views(sends@) =~= Seq::<TransmissionView>::empty());
        assert(packet_list.take(0) =~= Seq::<PacketView>::empty());
        for packet in iter: packets
            invariant
                iter.seq() == packets@,
                packet_list == packet_views(packets@),
                self@.connections == before.connections,
                transmission_views(sends@) == broadcast_packets(
                    packet_list.take(iter.index() as int),
                    before.connections,
                ),
        {
            let ghost done = iter.index() as int;
            assert(packet_list.take(done + 1).drop_last() =~= packet_list.take(done));
            self.fan_out_packet(&packet, &mut sends);
        }
        assert(packet_list.take(packets@.len() as int) =~= packet_list);
        assert(message_list.take(0) =~= Seq::<MessageView>::empty());
        let ghost packet_sends = transmission_views(sends@);
        assert(packet_sends =~= packet_sends + broadcast_messages(
            message_list.take(0),
            before.connections,
        ));
        for message in iter: messages
            invariant
                iter.seq() == messages@,
                message_list == message_views(messages@),
                self@.connections == before.connections,
                transmission_views(sends@) == packet_sends + broadcast_messages(
                    message_list.take(iter.index() as int),
                    before.connections,
                ),
        {
            let ghost done = iter.index() as int;
            assert(message_list.take(done + 1).drop_last() =~= message_list.take(done));
            self.fan_out_message(&message, &mut sends);
            assert(transmission_views(sends@) =~= packet_sends + broadcast_messages(
                message_list.take(done + 1),
                before.connections,
            ));
        }
        assert(message_list.take(messages@.len() as int) =~= message_list);
        sends
    }

    /// Appends one packet for each connected peer.
    fn fan_out_packet(&self, packet: &ReplicationPacket, sends: &mut Vec<Transmission>)
        ensures
            transmission_views(final(sends)@) == transmission_views(old(sends)@) + packet_fan_out(
                packet@,
                self@.connections,
            ),
    {
        let ghost connections = self.connections@;
        let ghost fan = packet_fan_out(packet@, connections);
        let ghost before = transmission_views(sends@);
        let mut index: usize = 0;
        assert(before =~= before + fan.take(0));
        while index < self.connections.len()
            invariant
                index <= connections.len(),
                connections == self.connections@,
                fan == packet_fan_out(packet@, connections),
                transmission_views(sends@) == before + fan.take(index as int),
            decreases connections.len() - index,
        {
            let ghost earlier = sends@;
            let send = self.send_packet_to(self.connections[index], packet);
            sends.push(send);
            assert(transmission_views(sends@) =~= transmission_views(earlier).push(send@));
            assert(fan.take(index + 1) =~= fan.take(index as int).push(fan[index as int]));
            assert(transmission_views(sends@) =~= before + fan.take(index + 1));
            index = index + 1;
        }
        assert(fan.take(index as int) =~= fan);
    }

    /// Appends one message for each connected peer.
    fn fan_out_message(&self, message: &RawNetMessage, sends: &mut Vec<Transmission>)
        ensures
            transmission_views(final(sends)@) == transmission_views(old(sends)@) + message_fan_out(
                message@,
                self@.connections,
            ),
    {
        let ghost connections = self.connections@;
        let ghost fan = message_fan_out(message@, connections);
        let ghost before = transmission_views(sends@);
        let mut index: usize = 0;
        assert(before =~= before + fan.take(0));
        while index < self.connections.len()
            invariant
                index <= connections.len(),
                connections == self.connections@,
                fan == message_fan_out(message@, connections),
                transmission_views(sends@) == before + fan.take(index as int),
            decreases connections.len() - index,
        {
            let ghost earlier = sends@;
            let send = Transmission {
                connection: self.connections[index],
                channel: Channel::Message,
                payload: wire::encode_message(message),
                reliable: false,
            };
            assert(send@ =~= message_send(message@, connections[index as int]));
            sends.push(send);
            assert(transmission_views(sends@) =~= transmission_views(earlier).push(send@));
            assert(fan.take(index + 1) =~= fan.take(index as int).push(fan[index as int]));
            assert(transmission_views(sends@) =~= before + fan.take(index + 1));
            index = index + 1;
        }
        assert(fan.take(index as int) =~= fan);
    }

    /// Hook for transports that have to be polled. There is nothing to poll:
    /// the transport hands payloads over as they arrive.
    pub fn poll_incoming(&mut self)
        ensures
            final(self)@ == old(self)@,
    {
    }
}

/// Length of a broadcast, and the place of each packet in it.
proof fn lemma_broadcast_packets(
    packets: Seq<PacketView>,
    connections: Seq<ConnectionId>,
    packet: int,
    peer: int,
)
    ensures
        broadcast_packets(packets, connections).len() == packets.len() * connections.len(),
        0 <= packet < packets.len() && 0 <= peer < connections.len() ==> {
            &&& 0 <= packet * connections.len() + peer < packets.len() * connections.len()
            &&& broadcast_packets(packets, connections)[packet * connections.len() + peer]
                == packet_send(packets[packet], connections[peer])
        },
    decreases packets.len(),
{
    let width = connections.len() as int;
    if packets.len() > 0 {
        let earlier = packets.drop_last();
        let count = earlier.len() as int;
        lemma_broadcast_packets(earlier, connections, packet, peer);
        assert((count + 1) * width == count * width + width) by (nonlinear_arith);
        if 0 <= packet < count && 0 <= peer < width {
            assert(packets[packet] == earlier[packet]);
        }
        if packet == count && 0 <= peer < width {
            assert(0 <= count * width) by (nonlinear_arith)
                requires
                    0 <= count,
                    0 <= width,
            ;
        }
    } else {
        assert(0 * width == 0) by (nonlinear_arith);
    }
}

/// Length of a broadcast, and the place of each message in it.
proof fn lemma_broadcast_messages(
    messages: Seq<MessageView>,
    connections: Seq<ConnectionId>,
    message: int,
    peer: int,
)
    ensures
        broadcast_messages(messages, connections).len() == messages.len() * connections.len(),
        0 <= message < messages.len() && 0 <= peer < connections.len() ==> {
            &&& 0 <= message * connections.len() + peer < messages.len() * connections.len()
            &&& broadcast_messages(messages, connections)[message * connections.len() + peer]
                == message_send(messages[message], connections[peer])
        },
    decreases messages.len(),
{
    let width = connections.len() as int;
    if messages.len() > 0 {
        let earlier = messages.drop_last();
        let count = earlier.len() as int;
        lemma_broadcast_messages(earlier, connections, message, peer);
        assert((count + 1) * width == count * width + width) by (nonlinear_arith);
        if 0 <= message < count && 0 <= peer < width {
            assert(messages[message] == earlier[message]);
        }
        if message == count && 0 <= peer < width {
            assert(0 <= count * width) by (nonlinear_arith)
                requires
                    0 <= count,
                    0 <= width,
            ;
        }
    } else {
        assert(0 * width == 0) by (nonlinear_arith);
    }
}

/// A flush sends each queued packet to each connected peer exactly once,
/// packet after packet, and nothing else but the queued messages after them.
pub proof fn law_flush_sends_each_packet_to_each_peer(net: NetView, packet: int, peer: int)
    requires
        0 <= packet < net.outbox.len(),
        0 <= peer < net.connections.len(),
    ensures
        net.flush_sends().len() == net.outbox.len() * net.connections.len()
            + net.message_outbox.len() * net.connections.len(),
        0 <= packet * net.connections.len() + peer < net.outbox.len() * net.connections.len(),
        net.flush_sends()[packet * net.connections.len() + peer] == packet_send(
            net.outbox[packet],
            net.connections[peer],
        ),
        net.flushed().outbox.len() == 0,
        net.flushed().message_outbox.len() == 0,
{
    lemma_broadcast_packets(net.outbox, net.connections, packet, peer);
    lemma_broadcast_messages(net.message_outbox, net.connections, 0, 0);
}

/// A flush sends each queued message to each connected peer exactly once,
/// after all packets.
pub proof fn law_flush_sends_each_message_to_each_peer(net: NetView, message: int, peer: int)
    requires
        0 <= message < net.message_outbox.len(),
        0 <= peer < net.connections.len(),
    ensures
        ({
            let place = net.outbox.len() * net.connections.len() + message
                * net.connections.len() + peer;
            &&& 0 <= place < net.flush_sends().len()
            &&& net.flush_sends()[place] == message_send(
                net.message_outbox[message],
                net.connections[peer],
            )
        }),
        net.flushed().message_outbox.len() == 0,
{
    lemma_broadcast_packets(net.outbox, net.connections, 0, 0);
    lemma_broadcast_messages(net.message_outbox, net.connections, message, peer);
}

/// What was queued while nobody is connected stays queued.
pub proof fn law_queues_wait_for_a_peer(net: NetView)
    requires
        net.connections.len() == 0,
    ensures
        net.flushed() == net,
        net.flush_sends().len() == 0,
{
}

/// A packet that is sent to a peer is the packet that the peer reads from the
/// payload.
pub proof fn law_sent_packet_is_received(packet: PacketView, connection: ConnectionId)
    requires
        wire::packet_payload(packet).len() <= usize::MAX,
    ensures
        wire::read_packet(packet_send(packet, connection).payload) == Ok::<PacketView, WireError>(
            packet,
        ),
{
    let bytes = wire::packet_bytes(packet);
    wire::law_packet_round_trip(packet, Seq::empty());
    assert(bytes + Seq::<u8>::empty() =~= bytes);
}

/// A message that is sent to a peer is the message that the peer reads from
/// the payload.
pub proof fn law_sent_message_is_received(message: MessageView, connection: ConnectionId)
    requires
        message.bytes.len() <= usize::MAX,
    ensures
        wire::read_message(message_send(message, connection).payload) == Ok::<
            MessageView,
            WireError,
        >(message),
{
    let bytes = wire::message_bytes(message);
    wire::law_message_round_trip(message, Seq::empty());
    assert(bytes + Seq::<u8>::empty() =~= bytes);
}

/// Draining the messages of one type loses none: each is handed out or stays,
/// and messages of other types stay in order.
pub proof fn law_draining_keeps_other_messages<T: NetMessage>(
    messages: Seq<MessageView>,
    outcomes: Seq<Option<T>>,
)
    requires
        picks::<T>(messages, outcomes),
    ensures
        decoded_values(outcomes).len() + undecoded_messages(messages, outcomes).len()
            == messages.len(),
        undecoded_messages(messages, outcomes).filter(
            |message: MessageView| message.wire_id != netmsg::wire_id_of::<T>(),
        ) == messages.filter(
            |message: MessageView| message.wire_id != netmsg::wire_id_of::<T>(),
        ),
    decreases messages.len(),
{
    reveal(Seq::filter);
    if messages.len() > 0 {
        let rest = messages.drop_last();
        let earlier = outcomes.drop_last();
        assert forall|i: int|
            #![trigger earlier[i]]
            #![trigger rest[i]]
            0 <= i < rest.len() implies if rest[i].wire_id == netmsg::wire_id_of::<T>() {
            netmsg::decodes_to::<T>(rest[i].bytes, earlier[i])
        } else {
            earlier[i] is None
        } by {
            assert(messages[i] == rest[i]);
            assert(outcomes[i] == earlier[i]);
        }
        law_draining_keeps_other_messages::<T>(rest, earlier);
        assert(messages[messages.len() - 1] == messages.last());
        let kept = undecoded_messages(rest, earlier);
        assert(kept.push(messages.last()).drop_last() =~= kept);
    }
}

/// What a receiver makes of a typed message, at whatever place of its inbox, is
/// what the type reads from the serialised form that the sender gave it.
pub proof fn law_typed_message_is_read_from_its_form<T: NetMessage>(
    value: T,
    bytes: Seq<u8>,
    connection: ConnectionId,
    inbox: Seq<MessageView>,
    outcomes: Seq<Option<T>>,
    place: int,
)
    requires
        netmsg::encodes_to(&value, bytes),
        bytes.len() <= usize::MAX,
        0 <= place < inbox.len(),
        wire::read_message(
            message_send(
                MessageView { wire_id: netmsg::wire_id_of::<T>(), bytes },
                connection,
            ).payload,
        ) == Ok::<MessageView, WireError>(inbox[place]),
        picks::<T>(inbox, outcomes),
    ensures
        netmsg::decodes_to::<T>(bytes, outcomes[place]),
{
    let sent = MessageView { wire_id: netmsg::wire_id_of::<T>(), bytes };
    law_sent_message_is_received(sent, connection);
    assert(inbox[place] == sent);
}

/// A typed message that a peer queues and sends is drained by the receiver as
/// the value that it was, where the type reads its own serialised form back.
/// Whatever else the receiver's inbox holds, the value stands at the message's
/// place among those drained, and the rest is treated as without it.
pub proof fn law_typed_message_comes_back<T: NetMessage>(
    value: T,
    bytes: Seq<u8>,
    connection: ConnectionId,
    inbox: Seq<MessageView>,
    outcomes: Seq<Option<T>>,
    place: int,
)
    requires
        netmsg::encodes_to(&value, bytes),
        bytes.len() <= usize::MAX,
        forall|outcome: Option<T>| #[trigger]
            netmsg::decodes_to::<T>(bytes, outcome) ==> outcome == Some(value),
        0 <= place < inbox.len(),
        wire::read_message(
            message_send(
                MessageView { wire_id: netmsg::wire_id_of::<T>(), bytes },
                connection,
            ).payload,
        ) == Ok::<MessageView, WireError>(inbox[place]),
        picks::<T>(inbox, outcomes),
    ensures
        outcomes[place] == Some(value),
        decoded_values(outcomes) == decoded_values(outcomes.take(place)).push(value)
            + decoded_values(outcomes.skip(place + 1)),
        undecoded_messages(inbox, outcomes) == undecoded_messages(
            inbox.take(place),
            outcomes.take(place),
        ) + undecoded_messages(inbox.skip(place + 1), outcomes.skip(place + 1)),
{
    law_typed_message_is_read_from_its_form(value, bytes, connection, inbox, outcomes, place);
    let front = outcomes.take(place + 1);
    let front_inbox = inbox.take(place + 1);
    assert(outcomes =~= front + outcomes.skip(place + 1));
    assert(inbox =~= front_inbox + inbox.skip(place + 1));
    lemma_outcomes_joined(front_inbox, front, inbox.skip(place + 1), outcomes.skip(place + 1));
    assert(front.drop_last() =~= outcomes.take(place));
    assert(front_inbox.drop_last() =~= inbox.take(place));
}

/// Joined lists of messages are drained one after the other.
proof fn lemma_outcomes_joined<T>(
    first: Seq<MessageView>,
    first_outcomes: Seq<Option<T>>,
    second: Seq<MessageView>,
    second_outcomes: Seq<Option<T>>,
)
    requires
        first.len() == first_outcomes.len(),
        second.len() == second_outcomes.len(),
    ensures
        decoded_values(first_outcomes + second_outcomes) == decoded_values(first_outcomes)
            + decoded_values(second_outcomes),
        undecoded_messages(first + second, first_outcomes + second_outcomes) == undecoded_messages(
            first,
            first_outcomes,
        ) + undecoded_messages(second, second_outcomes),
    decreases second.len(),
{
    let outcomes = first_outcomes + second_outcomes;
    if second.len() == 0 {
        assert(first + second =~= first);
        assert(outcomes =~= first_outcomes);
    } else {
        lemma_outcomes_joined(
            first,
            first_outcomes,
            second.drop_last(),
            second_outcomes.drop_last(),
        );
        assert((first + second).drop_last() =~= first + second.drop_last());
        assert(outcomes.drop_last() =~= first_outcomes + second_outcomes.drop_last());
    }
    assert(decoded_values(outcomes) =~= decoded_values(first_outcomes) + decoded_values(
        second_outcomes,
    ));
    assert(undecoded_messages(first + second, outcomes) =~= undecoded_messages(
        first,
        first_outcomes,
    ) + undecoded_messages(second, second_outcomes));
}

/// Draining one type a second time gives nothing and leaves the rest as it is,
/// where the type reads each message the same way each time.
pub proof fn law_second_drain_is_empty<T: NetMessage>(
    messages: Seq<MessageView>,
    outcomes: Seq<Option<T>>,
    again: Seq<Option<T>>,
)
    requires
        forall|i: int, one: Option<T>, other: Option<T>|
            0 <= i < messages.len() && #[trigger] netmsg::decodes_to::<T>(messages[i].bytes, one)
                && #[trigger] netmsg::decodes_to::<T>(messages[i].bytes, other) ==> one == other,
        picks::<T>(messages, outcomes),
        picks::<T>(undecoded_messages(messages, outcomes), again),
    ensures
        decoded_values(again).len() == 0,
        undecoded_messages(undecoded_messages(messages, outcomes), again) == undecoded_messages(
            messages,
            outcomes,
        ),
{
    let rest = undecoded_messages(messages, outcomes);
    assert forall|i: int| 0 <= i < again.len() implies #[trigger] again[i] is None by {
        let place = lemma_undecoded_came_from::<T>(messages, outcomes, i);
        assert(outcomes[place] is None);
        assert(rest[i] == messages[place]);
    }
    lemma_nothing_decoded::<T>(rest, again);
}

/// Where a message that stays stood before.
proof fn lemma_undecoded_came_from<T>(
    messages: Seq<MessageView>,
    outcomes: Seq<Option<T>>,
    i: int,
) -> (place: int)
    requires
        messages.len() == outcomes.len(),
        0 <= i < undecoded_messages(messages, outcomes).len(),
    ensures
        0 <= place < messages.len(),
        outcomes[place] is None,
        undecoded_messages(messages, outcomes)[i] == messages[place],
    decreases messages.len(),
{
    let rest = messages.drop_last();
    let earlier = outcomes.drop_last();
    if i < undecoded_messages(rest, earlier).len() {
        lemma_undecoded_came_from(rest, earlier, i)
    } else {
        messages.len() - 1
    }
}

/// Where nothing is decoded everything stays.
proof fn lemma_nothing_decoded<T>(messages: Seq<MessageView>, outcomes: Seq<Option<T>>)
    requires
        messages.len() == outcomes.len(),
        forall|i: int| 0 <= i < outcomes.len() ==> #[trigger] outcomes[i] is None,
    ensures
        decoded_values(outcomes).len() == 0,
        undecoded_messages(messages, outcomes) == messages,
    decreases messages.len(),
{
    if messages.len() > 0 {
        let earlier = outcomes.drop_last();
        assert forall|i: int| 0 <= i < earlier.len() implies #[trigger] earlier[i] is None by {
            assert(outcomes[i] is None);
        }
        lemma_nothing_decoded(messages.drop_last(), earlier);
        assert(outcomes[outcomes.len() - 1] is None);
        assert(messages.drop_last().push(messages.last()) =~= messages);
    }
}

/// A queued message adds to the next flush one send for each connected peer,
/// after everything that was queued before.
pub proof fn law_queued_message_is_sent_after_the_others(net: NetView, message: MessageView)
    requires
        net.connections.len() > 0,
    ensures
        (NetView { message_outbox: net.message_outbox.push(message), ..net }).flush_sends()
            == net.flush_sends() + message_fan_out(message, net.connections),
{
    let queued = net.message_outbox.push(message);
    let packets = broadcast_packets(net.outbox, net.connections);
    let messages = broadcast_messages(net.message_outbox, net.connections);
    assert(queued.drop_last() =~= net.message_outbox);
    assert(packets + (messages + message_fan_out(message, net.connections)) =~= (packets
        + messages) + message_fan_out(message, net.connections));
    if !net.can_flush() {
        assert(packets + messages =~= Seq::<TransmissionView>::empty());
    }
}

/// Spawns, despawns and resources have to arrive; component updates may get
/// lost, since newer ones follow.
pub proof fn law_only_component_updates_may_get_lost(packet: PacketView)
    ensures
        needs_reliability(packet) == !(packet is UpdateComponent),
{
}

/// Each kind of packet has its own name.
pub proof fn law_packet_kinds_are_named(packet: PacketView)
    ensures
        kind_name(packet) == match packet {
            PacketView::SpawnEntity { .. } => "SpawnEntity"@,
            PacketView::DespawnEntity { .. } => "DespawnEntity"@,
            PacketView::UpdateComponent { .. } => "UpdateComponent"@,
            PacketView::UpdateResource { .. } => "UpdateResource"@,
        },
{
}

/// Each channel has its own event name.
pub proof fn law_channels_are_named()
    ensures
        channel_name(Channel::Replication) == "replication"@,
        channel_name(Channel::Message) == "netmsg"@,
        channel_name(Channel::Join) == "__networker_join__"@,
{
}

/// What a list of packets, messages or transmissions says is what each of them
/// says, in order, and a transmission says what its fields hold.
pub proof fn law_lists_say_what_their_items_say(
    packets: Seq<ReplicationPacket>,
    messages: Seq<RawNetMessage>,
    sends: Seq<Transmission>,
)
    ensures
        packet_views(packets).len() == packets.len(),
        message_views(messages).len() == messages.len(),
        transmission_views(sends).len() == sends.len(),
        forall|i: int| 0 <= i < packets.len() ==> #[trigger] packet_views(packets)[i] == packets[i]@,
        forall|i: int|
            0 <= i < messages.len() ==> (#[trigger] message_views(messages)[i]).wire_id
                == messages[i].wire_id && message_views(messages)[i].bytes == messages[i].bytes@,
        forall|i: int|
            0 <= i < sends.len() ==> (#[trigger] transmission_views(sends)[i]).connection
                == sends[i].connection && transmission_views(sends)[i].channel == sends[i].channel
                && transmission_views(sends)[i].payload == sends[i].payload@
                && transmission_views(sends)[i].reliable == sends[i].reliable,
{
}

/// A packet says what its fields hold.
pub proof fn law_packets_say_what_their_fields_hold(packet: ReplicationPacket)
    ensures
        match packet {
            ReplicationPacket::SpawnEntity { network_id, prefab_wire_id } => packet@
                == (PacketView::SpawnEntity { network_id, prefab_wire_id }),
            ReplicationPacket::DespawnEntity { network_id } => packet@
                == (PacketView::DespawnEntity { network_id }),
            ReplicationPacket::UpdateComponent {
                network_id,
                component_wire_id,
                sequence,
                bytes,
            } => packet@ == (PacketView::UpdateComponent {
                network_id,
                component_wire_id,
                sequence,
                bytes: bytes@,
            }),
            ReplicationPacket::UpdateResource { resource_wire_id, bytes } => packet@
                == (PacketView::UpdateResource { resource_wire_id, bytes: bytes@ }),
        },
{
}

/// A packet goes to its peer on the replication channel, as the bytes that the
/// peer reads it from, and reliably unless it is a component update.
pub proof fn law_packets_go_out_for_replication(packet: PacketView, connection: ConnectionId)
    ensures
        packet_send(packet, connection).connection == connection,
        packet_send(packet, connection).channel == Channel::Replication,
        packet_send(packet, connection).payload == wire::packet_bytes(packet),
        packet_send(packet, connection).reliable == !(packet is UpdateComponent),
{
}

/// A message, whatever it holds, goes to its peer on the message channel, as the
/// bytes that the peer reads it from, and unreliably.
pub proof fn law_messages_go_out_as_messages(message: MessageView, connection: ConnectionId)
    ensures
        message_send(message, connection).connection == connection,
        message_send(message, connection).channel == Channel::Message,
        message_send(message, connection).payload == wire::message_bytes(message),
        !message_send(message, connection).reliable,
{
}

/// An announcement goes to the server on the join channel and holds nothing.
pub proof fn law_announcements_are_empty(connection: ConnectionId)
    ensures
        join_send(connection).connection == connection,
        join_send(connection).channel == Channel::Join,
        join_send(connection).payload.len() == 0,
        !join_send(connection).reliable,
        JOIN_ATTEMPTS == 20,
        JOIN_INTERVAL_MILLIS == 100,
{
}

/// Every packet that is queued when somebody is connected is sent by a flush to
/// each connected peer on the replication channel, reliably unless it is a
/// component update, and the peer reads that packet from the payload.
pub proof fn law_flushed_packets_reach_each_peer(net: NetView, packet: int, peer: int)
    requires
        0 <= packet < net.outbox.len(),
        0 <= peer < net.connections.len(),
        wire::packet_payload(net.outbox[packet]).len() <= usize::MAX,
    ensures
        ({
            let send = net.flush_sends()[packet * net.connections.len() + peer];
            &&& 0 <= packet * net.connections.len() + peer < net.flush_sends().len()
            &&& send.connection == net.connections[peer]
            &&& send.channel == Channel::Replication
            &&& send.reliable == !(net.outbox[packet] is UpdateComponent)
            &&& wire::read_packet(send.payload) == Ok::<PacketView, WireError>(net.outbox[packet])
        }),
{
    law_flush_sends_each_packet_to_each_peer(net, packet, peer);
    law_sent_packet_is_received(net.outbox[packet], net.connections[peer]);
    assert(net.message_outbox.len() * net.connections.len() >= 0) by (nonlinear_arith);
}

/// Every message that is queued when somebody is connected is sent by a flush to
/// each connected peer on the message channel, unreliably, and the peer reads
/// that message from the payload.
pub proof fn law_flushed_messages_reach_each_peer(net: NetView, message: int, peer: int)
    requires
        0 <= message < net.message_outbox.len(),
        0 <= peer < net.connections.len(),
        net.message_outbox[message].bytes.len() <= usize::MAX,
    ensures
        ({
            let place = net.outbox.len() * net.connections.len() + message
                * net.connections.len() + peer;
            let send = net.flush_sends()[place];
            &&& 0 <= place < net.flush_sends().len()
            &&& send.connection == net.connections[peer]
            &&& send.channel == Channel::Message
            &&& !send.reliable
            &&& wire::read_message(send.payload) == Ok::<MessageView, WireError>(
                net.message_outbox[message],
            )
        }),
{
    law_flush_sends_each_message_to_each_peer(net, message, peer);
    law_sent_message_is_received(net.message_outbox[message], net.connections[peer]);
}

/// A flush with something queued and somebody connected empties the two queues
/// that it sends and leaves everything else; any other flush leaves everything.
pub proof fn law_flush_empties_what_it_sends(net: NetView)
    ensures
        net.connections.len() > 0 && (net.outbox.len() > 0 || net.message_outbox.len() > 0)
            ==> net.flush_sends().len() == net.outbox.len() * net.connections.len()
            + net.message_outbox.len() * net.connections.len() && net.flushed() == (NetView {
            outbox: Seq::empty(),
            message_outbox: Seq::empty(),
            ..net
        }),
        net.connections.len() == 0 || net.outbox.len() == 0 && net.message_outbox.len() == 0
            ==> net.flush_sends().len() == 0 && net.flushed() == net,
{
    lemma_broadcast_packets(net.outbox, net.connections, 0, 0);
    lemma_broadcast_messages(net.message_outbox, net.connections, 0, 0);
}

/// A new networking resource has no role, no peers and empty queues.
pub proof fn law_a_new_resource_is_idle()
    ensures
        idle_net().is_server is None,
        idle_net().server_address is None,
        idle_net().connections.len() == 0,
        idle_net().new_connections.len() == 0,
        idle_net().outbox.len() == 0,
        idle_net().inbox.len() == 0,
        idle_net().message_outbox.len() == 0,
        idle_net().message_inbox.len() == 0,
{
}

/// Draining a type decodes exactly the messages with its wire identifier.
pub proof fn law_messages_are_picked_by_type<T: NetMessage>(
    messages: Seq<MessageView>,
    outcomes: Seq<Option<T>>,
    i: int,
)
    requires
        picks::<T>(messages, outcomes),
        0 <= i < messages.len(),
    ensures
        outcomes.len() == messages.len(),
        messages[i].wire_id == netmsg::wire_id_of::<T>() ==> netmsg::decodes_to::<T>(
            messages[i].bytes,
            outcomes[i],
        ),
        messages[i].wire_id != netmsg::wire_id_of::<T>() ==> outcomes[i] is None,
{
}

/// Of the messages in the inbox those that were decoded come out as their
/// values and the others stay, both in order of arrival.
pub proof fn law_decoded_messages_come_out_and_others_stay<T>(
    messages: Seq<MessageView>,
    outcomes: Seq<Option<T>>,
    message: MessageView,
    value: T,
)
    requires
        messages.len() == outcomes.len(),
    ensures
        decoded_values(Seq::<Option<T>>::empty()).len() == 0,
        undecoded_messages(Seq::empty(), Seq::<Option<T>>::empty()).len() == 0,
        decoded_values(outcomes.push(Some(value))) == decoded_values(outcomes).push(value),
        decoded_values(outcomes.push(None)) == decoded_values(outcomes),
        undecoded_messages(messages.push(message), outcomes.push(Some(value)))
            == undecoded_messages(messages, outcomes),
        undecoded_messages(messages.push(message), outcomes.push(None)) == undecoded_messages(
            messages,
            outcomes,
        ).push(message),
{
    assert(messages.push(message).drop_last() =~= messages);
    assert(outcomes.push(Some(value)).drop_last() =~= outcomes);
    assert(outcomes.push(None).drop_last() =~= outcomes);
}

/// The spawn packets of a list are those that spawn, in order.
pub proof fn law_spawns_are_the_spawn_packets(packets: Seq<PacketView>)
    ensures
        spawns(packets) == packets.filter(|packet: PacketView| packet is SpawnEntity),
{
}

/// Messages with their outcomes say what they hold, in order.
pub proof fn law_judged_messages_say_what_they_hold<T>(judged: Seq<(RawNetMessage, Option<T>)>)
    ensures
        judged_messages(judged).len() == judged.len(),
        judged_outcomes(judged).len() == judged.len(),
        forall|i: int|
            0 <= i < judged.len() ==> (#[trigger] judged_messages(judged)[i]).wire_id
                == judged[i].0.wire_id && judged_messages(judged)[i].bytes == judged[i].0.bytes@,
        forall|i: int|
            0 <= i < judged.len() ==> #[trigger] judged_outcomes(judged)[i] == judged[i].1,
{
}

} // verus!
