//! Preallocated wait registration and dispatch.
//!
//! Objects that can be waited for only receive an opaque token. The runtime keeps
//! the scheduler key and what is known of the wait in its own slots, so nothing
//! else has to know of processes or threads.
//!
//! Notifications of one registration are coalesced, stale tokens are ignored, and
//! readiness wins over a deadline that is reached at the same time.

pub mod conduct;
pub mod deadlines;
pub mod observer;
pub mod runtime;
