//! Replication of entities, components and resources between a game server
//! and its clients.
use vstd::prelude::*;

pub mod bytes;
pub mod expand;
pub mod lists;
pub mod netmsg;
pub mod netres;
pub mod replicated;
pub mod sync;
pub mod wire;

pub use bevy;
pub use bincode;
pub use inventory;
pub use networker_rs;
pub use serde;

pub use crate::netmsg::NetMessage;
pub use crate::netres::NetResource;
pub use crate::replicated::Replicated;

verus! {

/// Returns the crate name.
pub fn crate_name() -> (name: &'static str)
    ensures
        name@ == "bevy-networker-multiplayer"@,
{
    "bevy-networker-multiplayer"
}

} // verus!
