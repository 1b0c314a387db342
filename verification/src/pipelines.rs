//! The instance-batching engine and its resource models.
//!
//! GPU objects (buffers, binding groups, layouts) are modelled by plain
//! descriptors: the library decides what the device should hold and in
//! what quantity, and an unverified driver performs the actual device
//! calls from those descriptors.

pub mod buffers;
pub mod group_layout_manager;
pub mod instance_manager;
pub mod structures;
pub mod texture;
pub mod transform;
