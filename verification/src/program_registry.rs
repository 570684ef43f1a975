//! A zero-copy parser for Ginkgo program registry (`GKR`) files.
//!
//! The little-endian wire format starts with a 12-byte header:
//!
//! ```text
//! magic[4] = "GKR\0" | version: u16 | header_flags: u16 | entry_count: u32
//! ```
//!
//! Each entry then holds an 8-byte header followed by its three UTF-8 fields:
//!
//! ```text
//! app_id_len: u16 | display_name_len: u16 | executable_path_len: u16 | flags: u16
//! app_id bytes | display_name bytes | executable_path bytes
//! ```
//!
//! Header flags are zero, the only entry flag hides an entry, and nothing follows
//! the last entry. App identifiers are lowercase and dot-separated; executable
//! paths are absolute and have no `.` or `..` segments.

pub mod encoding;
pub mod entry;
pub mod layout;
pub mod parsing;
