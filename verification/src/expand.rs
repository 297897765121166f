//! What the `#[sync]` and `#[netmsg]` attributes and the prediction derives
//! generate for a type.
pub mod arguments;
pub mod plan;
pub mod shape;
