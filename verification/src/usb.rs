//! xHCI USB HID transport with hubs and hotplug.

pub mod bringup;
pub mod contexts;
pub mod control;
pub mod controller;
pub mod descriptors;
pub mod device;
pub mod error;
pub mod host;
pub mod hub;
pub mod laws;
pub mod lifecycle;
pub mod packets;
pub mod page;
pub mod path;
pub mod poll;
pub mod populate;
pub mod ring;
pub mod service;
pub mod slot;
pub mod stages;
pub mod teardown;
