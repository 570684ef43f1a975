//! Bounded 4 KiB block cache with deferred ordered writeback.
//!
//! Making a cache reserves its entries and its lookup table; afterwards reads,
//! writes, flush requests and writeback steps grow no collection. A flush request
//! is a sequence ticket: writes up to that ticket are dispatched in sequence order,
//! and the backing disk is flushed before any later write is dispatched. Flushes
//! drain synchronously until worker-driven writeback is enabled.

pub mod access;
pub mod cache;
pub mod conduct;
pub mod disk;
pub mod laws;
pub mod lookup;
pub mod model;
pub mod reading;
pub mod requests;
pub mod transfer;
