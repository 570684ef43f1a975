//! Errors of the USB stack.
use vstd::prelude::*;

use super::descriptors::DescriptorError;

verus! {

/// Why a USB operation failed.
///
/// PCI, paging and frame-allocator failures carry the code of the subsystem
/// that reported them.
#[derive(Clone, Copy, Debug, PartialEq, Eq, Structural)]
pub enum UsbError {
    Pci(u32),
    Paging(u32),
    FrameAllocator(u32),
    OutOfFrames,
    AddressOverflow,
    InvalidMmioBar,
    MmioOutOfRange,
    UnsupportedPageSize,
    UnsupportedDmaAddress,
    InvalidCapability,
    ControllerTimeout,
    ControllerError,
    NoSlots,
    InvalidPort,
    PortDisconnected,
    PortResetFailed,
    RingFull,
    CommandFailed(u8),
    TransferFailed(u8),
    InvalidSlot,
    InvalidEndpoint,
    Descriptor(DescriptorError),
    TooManyInterfaces,
    ReportTooLarge,
}

impl From<DescriptorError> for UsbError {
    fn from(error: DescriptorError) -> (converted: Self) {
        UsbError::Descriptor(error)
    }
}

impl vstd::std_specs::convert::FromSpecImpl<DescriptorError> for UsbError {
    open spec fn obeys_from_spec() -> bool {
        true
    }

    open spec fn from_spec(error: DescriptorError) -> UsbError {
        UsbError::Descriptor(error)
    }
}

} // verus!
