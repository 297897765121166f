//! Sync registration, snapshots, and packet application.
pub mod delivery;
pub mod frames;
pub mod incoming;
pub mod outgoing;
pub mod registry;
pub mod resource;
pub mod seconds;
pub mod sequence;
pub mod snapshot;
pub mod world;

pub use crate::netmsg::hash_type_path;
pub use crate::sync::incoming::{apply_incoming_packets, WorldCommand};
pub use crate::sync::outgoing::{
    assign_network_ids, assign_prefab_ids, flush_network_outbox, poll_network_incoming,
    replicate_removals, sync_component, PrefabCandidate, PrefabId, SyncComponent,
};
pub use crate::sync::registry::{
    ComponentRegistration, PrefabRegistration, PrefabRegistry, ResourceRegistration, SyncRegistry,
    SyncResourceRegistry,
};
pub use crate::sync::resource::{
    apply_resource_update, sync_resource, sync_resource_with_settings, ResourceRef,
    ResourceUpdate, SyncResource, SyncResourceSendState, SyncResourceSettings,
};
pub use crate::sync::seconds::Seconds;
pub use crate::sync::sequence::ComponentUpdateSequenceState;
pub use crate::sync::snapshot::{
    snapshot_component, snapshot_resource, sync_new_connections, ComponentSnapshot,
    ResourceSnapshot, WorldSnapshot,
};
pub use crate::sync::world::{
    next_component_update_sequence, register_sync_components, PendingComponentUpdates,
    ReplicationWorld,
};
