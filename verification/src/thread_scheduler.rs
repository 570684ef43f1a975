//! Deterministic, priority-aware thread scheduling policy.
//!
//! The policy owns no clock, interrupt state or architecture context. Callers
//! provide monotonic nanosecond timestamps and perform the context switch that a
//! dispatch describes.
//!
//! Classes are strictly ordered, but every class is budgeted. First-in first-out
//! queues give fairness within a class, while an aging check lets lower classes
//! make bounded progress. Privileged base classes require the matching authority.
//! Priority donations may cross that boundary for a while, but both their chain
//! depth and their lifetime are bounded.

pub mod conduct;
pub mod dispatch;
pub mod laws;
pub mod policy;
pub mod scheduler;
pub mod table;
