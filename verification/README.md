# bevy-networker-multiplayer

Replication of entities, components and resources from a game server to its
clients, with typed messages beside it. The library is a state machine on plain
values, written and proved in Verus. The Bevy plugin around it owns the sockets
and the entity store.

- `src/wire.rs`: the byte form of packets and messages.
- `src/netres.rs`: the role of a peer, its connections and its queues.
- `src/replicated.rs`: network IDs and the index between IDs and entities.
- `src/sync/`: registries, sequence numbers, resource sends, application of
  incoming packets, packets that a server queues, snapshots for new clients.
  `delivery.rs` states what the application of packets guarantees in a frame,
  `frames.rs` what it guarantees over many.
- `src/expand/`: the arguments of the attribute macros and the plan of the code
  that they generate.
- `app/`: the Bevy plugin `bevy_networker_multiplayer_plugin`: sockets, systems,
  rendering of the generated code, prediction.

A frame of a server assigns network IDs to new entities, queues their spawn
packets and the changed components and resources, sends snapshots to new
clients and flushes the queues. A frame of a client hands received packets to
`apply_incoming_packets` and makes the changes that come back.
