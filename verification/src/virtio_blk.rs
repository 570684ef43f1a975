//! Fixed-capacity transitional PCI virtio-blk support.
//!
//! The driver owns a bounded set of descriptor blocks, keeps exact dispatch
//! tokens until the device returns each chain, and drains used-ring entries in
//! the order that the device selects. Port and memory accesses are the caller's:
//! the driver takes what was read and returns what has to be stored.

pub mod conduct;
pub mod device;
pub mod laws;
pub mod queue;
pub mod setup;
pub mod synchronous;
pub mod transfer;
