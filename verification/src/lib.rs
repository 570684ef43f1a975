//! Verified kernel logic for the Ginkgo operating system.

pub mod bytes;
pub mod program_registry;
pub mod storage;
pub mod syscall;
pub mod task;
pub mod text;
pub mod thread_scheduler;
pub mod trust;
pub mod usb;
pub mod virtio_blk;
pub mod wait_runtime;
pub mod window;
pub mod writeback;
