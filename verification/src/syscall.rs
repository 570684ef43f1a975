//! System calls: what a request says, what is asked of the rest of the kernel to serve it,
//! and what the caller is told.
//!
//! A handler asks through a [`kernel::Session`], which notes what was asked and what was
//! answered. Nothing is taken for granted of an answer.

pub mod abi;
pub mod application;
pub mod batch;
pub mod channel;
pub mod child_effects;
pub mod blocked;
pub mod children;
pub mod dispatch;
pub mod effects;
pub mod errors;
pub mod file_io;
pub mod files;
pub mod handles;
pub mod heard;
pub mod kernel;
pub mod laws;
pub mod mapping;
pub mod memory;
pub mod memory_effects;
pub mod node_effects;
pub mod nodes;
pub mod number;
pub mod outcomes;
pub mod paths;
pub mod process_effects;
pub mod records;
pub mod request_effects;
pub mod request_wire;
pub mod requests;
pub mod rules;
pub mod submission;
pub mod threads;
pub mod wait;
pub mod wire;
