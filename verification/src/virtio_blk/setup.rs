//! Setting a device up, one access at a time.
//!
//! The caller performs each request and hands back what came of it.
use vstd::prelude::*;

use super::device::{
    capacity_from_words, check_features, check_fresh_rings, check_msix_vectors,
    check_queue_frame, msix_entry, negotiate_features, no_diagnostics, queue_frame,
    ResetState, VirtioBlk, INTERRUPT_WATCHDOG_POLLS,
};
use super::queue::{
    check_status_write, free_slot, io_bar_base, layout_spec, status_error, transitional_config_base,
    usable_queue_size, validate_msix_table, validate_operational_status, QueueLayout,
    VirtioBlkError, LEGACY_IO_BYTES, MAX_MSIX_BAR_SIZE, MAX_SLOTS, MSIX_NO_VECTOR,
    MSIX_TABLE_ENTRY_BYTES, MSI_ADDRESS_BASE, READY_STATUS, REG_DEVICE_STATUS,
    REG_GUEST_FEATURES, REG_HOST_FEATURES, REG_MSIX_CONFIG_VECTOR, REG_MSIX_QUEUE_VECTOR,
    REG_QUEUE_PFN, REG_QUEUE_SELECT, REG_QUEUE_SIZE, SUPPORTED_FEATURES,
    VIRTIO_BLK_TRANSITIONAL_DEVICE_ID, VIRTIO_VENDOR_ID,
};

verus! {

/// The offset of the first base address register.
pub const PCI_BAR0: u16 = 0x10;

pub const PCI_COMMAND: u16 = 0x04;

pub const PCI_IDENTITY: u16 = 0x00;

/// I/O space, memory space and bus mastering.
pub const PCI_COMMAND_ENABLE: u16 = 0x7;

/// Where a table entry keeps its mask.
pub const MSIX_ENTRY_VECTOR_CONTROL: u64 = 12;

pub const MSIX_VECTOR_MASKED: u32 = 1;

pub const STATUS_ACKNOWLEDGED: u8 = 1;

pub const STATUS_DRIVEN: u8 = 3;

pub const STATUS_NEGOTIATED: u8 = 11;

/// The negotiated status with the mark of a driver that gave up.
pub const STATUS_GIVEN_UP: u8 = 139;

/// Where the interrupt table of a device is.
#[derive(Clone, Copy, Debug, PartialEq, Eq, Structural)]
pub struct MsixCapability {
    pub table_bar: u8,
    pub table_offset: u32,
    pub table_size: u16,
}

/// What setting a device up waits for.
#[derive(Clone, Copy, Debug, PartialEq, Eq, Structural)]
pub enum SetupStep {
    Bar0,
    FindMsix,
    MaskMsix,
    ReadCommand,
    WriteCommand,
    Identity,
    ProbeTable,
    MapTable,
    MaskVector,
    OpenPorts,
    Reset,
    ResetRead,
    Acknowledge,
    AcknowledgeRead,
    Driver,
    DriverRead,
    HostFeatures,
    GuestFeatures,
    Features,
    FeaturesRead,
    FeaturesCheck,
    SelectQueue,
    OldFrame,
    QueueSize,
    QueueMemory,
    RequestMemory,
    DataMemory,
    Frame,
    FrameRead,
    CapacityLow,
    CapacityHigh,
    UsedIndex,
    AvailableIndex,
    Ready,
    ReadyRead,
    ReadyCheck,
    Finished,
    /// The device cannot be used; `marked` tells it so.
    Failed { error: VirtioBlkError, marked: bool },
}

/// What the caller has to do next.
#[derive(Clone, Copy, Debug, PartialEq, Eq, Structural)]
pub enum SetupRequest {
    PciRead32 { offset: u16 },
    PciRead16 { offset: u16 },
    PciWrite16 { offset: u16, value: u16 },
    FindMsix,
    /// Switch interrupts on or off, and mask them or not.
    MsixControl { enabled: bool, masked: bool },
    ProbeBar { bar: u8 },
    /// Map the window of the interrupt table.
    MapTable,
    TableWrite { offset: u64, value: u32 },
    OpenPorts { base: u16 },
    Read8 { register: u16 },
    Read16 { register: u16 },
    Read32 { register: u16 },
    Write8 { register: u16, value: u8 },
    Write16 { register: u16, value: u16 },
    Write32 { register: u16, word: u32 },
    /// Allocate contiguous zeroed pages below four gigabytes.
    Allocate { pages: usize },
    /// Read a word of the queue memory.
    QueueRead { offset: usize },
    Finished,
    /// Give up; a status is written first where there is one, whether or not that works.
    Failed { error: VirtioBlkError, status: Option<u8> },
}

/// What came of a request.
#[derive(Clone, Copy, Debug, PartialEq, Eq, Structural)]
pub enum SetupReply {
    /// What was read, of any width.
    Word(u32),
    Done,
    Msix(Option<MsixCapability>),
    /// The size of a window.
    Bar(u64),
    /// The address of the pages.
    Memory(u64),
    Failed(VirtioBlkError),
}

/// A device that is being set up.
#[derive(Clone, Copy, Debug, PartialEq, Eq, Structural)]
pub struct Setup {
    pub step: SetupStep,
    pub base: u16,
    pub msix: Option<MsixCapability>,
    pub command: u16,
    pub host_features: u32,
    pub queue_size: u16,
    pub queue: u64,
    pub requests: u64,
    pub data: u64,
    pub capacity_low: u32,
    pub capacity_high: u32,
    pub used_index: u16,
}

/// What a step asks for.
pub open spec fn asks(setup: Setup) -> SetupRequest {
    let layout = layout_spec(setup.queue_size as int);
    match setup.step {
        SetupStep::Bar0 => SetupRequest::PciRead32 { offset: PCI_BAR0 },
        SetupStep::FindMsix => SetupRequest::FindMsix,
        SetupStep::MaskMsix => SetupRequest::MsixControl { enabled: false, masked: true },
        SetupStep::ReadCommand => SetupRequest::PciRead16 { offset: PCI_COMMAND },
        SetupStep::WriteCommand => SetupRequest::PciWrite16 {
            offset: PCI_COMMAND,
            value: setup.command | PCI_COMMAND_ENABLE,
        },
        SetupStep::Identity => SetupRequest::PciRead32 { offset: PCI_IDENTITY },
        SetupStep::ProbeTable => SetupRequest::ProbeBar { bar: setup.msix->Some_0.table_bar },
        SetupStep::MapTable => SetupRequest::MapTable,
        SetupStep::MaskVector => SetupRequest::TableWrite {
            offset: (setup.msix->Some_0.table_offset + MSIX_ENTRY_VECTOR_CONTROL) as u64,
            value: MSIX_VECTOR_MASKED,
        },
        SetupStep::OpenPorts => SetupRequest::OpenPorts { base: setup.base },
        SetupStep::Reset => writes_status(0),
        SetupStep::Acknowledge => writes_status(STATUS_ACKNOWLEDGED),
        SetupStep::Driver => writes_status(STATUS_DRIVEN),
        SetupStep::Features => writes_status(STATUS_NEGOTIATED),
        SetupStep::Ready => writes_status(READY_STATUS),
        SetupStep::ResetRead | SetupStep::AcknowledgeRead | SetupStep::DriverRead
        | SetupStep::FeaturesRead | SetupStep::FeaturesCheck | SetupStep::ReadyRead
        | SetupStep::ReadyCheck => SetupRequest::Read8 { register: REG_DEVICE_STATUS },
        SetupStep::HostFeatures => SetupRequest::Read32 { register: REG_HOST_FEATURES },
        SetupStep::GuestFeatures => SetupRequest::Write32 {
            register: REG_GUEST_FEATURES,
            word: setup.host_features & SUPPORTED_FEATURES,
        },
        SetupStep::SelectQueue => SetupRequest::Write16 { register: REG_QUEUE_SELECT, value: 0 },
        SetupStep::OldFrame | SetupStep::FrameRead => SetupRequest::Read32 {
            register: REG_QUEUE_PFN,
        },
        SetupStep::QueueSize => SetupRequest::Read16 { register: REG_QUEUE_SIZE },
        SetupStep::QueueMemory => SetupRequest::Allocate { pages: layout.pages },
        SetupStep::RequestMemory | SetupStep::DataMemory => SetupRequest::Allocate { pages: 1 },
        SetupStep::Frame => SetupRequest::Write32 {
            register: REG_QUEUE_PFN,
            word: (setup.queue / 4096) as u32,
        },
        SetupStep::CapacityLow => SetupRequest::Read32 { register: 0x14 },
        SetupStep::CapacityHigh => SetupRequest::Read32 { register: 0x18 },
        SetupStep::UsedIndex => SetupRequest::QueueRead { offset: (layout.used + 2) as usize },
        SetupStep::AvailableIndex => SetupRequest::QueueRead {
            offset: (layout.available + 2) as usize,
        },
        SetupStep::Finished => SetupRequest::Finished,
        SetupStep::Failed { error, marked } => SetupRequest::Failed {
            error,
            status: if marked {
                Some(STATUS_GIVEN_UP)
            } else {
                None
            },
        },
    }
}

/// The request that writes the device status.
pub open spec fn writes_status(value: u8) -> SetupRequest {
    SetupRequest::Write8 { register: REG_DEVICE_STATUS, value }
}

/// The reply answers what a step asks for.
pub open spec fn setup_reply_fits(step: SetupStep, reply: SetupReply) -> bool {
    match reply {
        SetupReply::Word(_) => match step {
            SetupStep::Bar0 | SetupStep::ReadCommand | SetupStep::Identity | SetupStep::ResetRead
            | SetupStep::AcknowledgeRead | SetupStep::DriverRead | SetupStep::HostFeatures
            | SetupStep::FeaturesRead | SetupStep::FeaturesCheck | SetupStep::OldFrame
            | SetupStep::QueueSize | SetupStep::FrameRead | SetupStep::CapacityLow
            | SetupStep::CapacityHigh | SetupStep::UsedIndex | SetupStep::AvailableIndex
            | SetupStep::ReadyRead | SetupStep::ReadyCheck => true,
            _ => false,
        },
        SetupReply::Done => match step {
            SetupStep::MaskMsix | SetupStep::WriteCommand | SetupStep::MapTable
            | SetupStep::MaskVector | SetupStep::OpenPorts | SetupStep::Reset
            | SetupStep::Acknowledge | SetupStep::Driver | SetupStep::GuestFeatures
            | SetupStep::Features | SetupStep::SelectQueue | SetupStep::Frame
            | SetupStep::Ready => true,
            _ => false,
        },
        SetupReply::Msix(_) => step == SetupStep::FindMsix,
        SetupReply::Bar(_) => step == SetupStep::ProbeTable,
        SetupReply::Memory(_) => step == SetupStep::QueueMemory || step
            == SetupStep::RequestMemory || step == SetupStep::DataMemory,
        SetupReply::Failed(_) => step != SetupStep::Finished && !(step is Failed),
    }
}

/// The setup at another step.
pub open spec fn at(setup: Setup, step: SetupStep) -> Setup {
    Setup { step, ..setup }
}

/// The setup given up.
pub open spec fn gives_up(setup: Setup, error: VirtioBlkError, marked: bool) -> Setup {
    at(setup, SetupStep::Failed { error, marked })
}

/// The next step if the status that was written reads back.
pub open spec fn reads_back(setup: Setup, written: u8, observed: u8, next: SetupStep) -> Setup {
    if observed == u8::MAX {
        gives_up(setup, VirtioBlkError::DeviceNotPresent, false)
    } else if observed & written != written {
        gives_up(setup, VirtioBlkError::DeviceReset, false)
    } else {
        at(setup, next)
    }
}

/// `length` bytes at `physical` end within the address space.
pub open spec fn is_addressable(physical: u64, length: int) -> bool {
    physical + length - 1 <= u64::MAX
}

/// What a word leads to.
pub open spec fn after_word(setup: Setup, word: u32) -> Setup {
    let low = (word % 256) as u8;
    let half = (word % 0x1_0000) as u16;
    match setup.step {
        SetupStep::Bar0 => if word % 2 == 0 || word - word % 4 > 0xffff || word - word % 4 == 0
            || word - word % 4 + LEGACY_IO_BYTES > 0x1_0000 {
            gives_up(setup, VirtioBlkError::InvalidIoBar, false)
        } else {
            Setup { step: SetupStep::FindMsix, base: (word - word % 4) as u16, ..setup }
        },
        SetupStep::ReadCommand => Setup { step: SetupStep::WriteCommand, command: half, ..setup },
        SetupStep::Identity => if half != VIRTIO_VENDOR_ID || word / 0x1_0000
            != VIRTIO_BLK_TRANSITIONAL_DEVICE_ID {
            gives_up(setup, VirtioBlkError::DeviceNotPresent, false)
        } else if setup.msix is Some {
            at(setup, SetupStep::ProbeTable)
        } else {
            at(setup, SetupStep::OpenPorts)
        },
        SetupStep::ResetRead => if low != 0 {
            gives_up(setup, VirtioBlkError::DeviceReset, false)
        } else {
            at(setup, SetupStep::Acknowledge)
        },
        SetupStep::AcknowledgeRead => reads_back(
            setup,
            STATUS_ACKNOWLEDGED,
            low,
            SetupStep::Driver,
        ),
        SetupStep::DriverRead => reads_back(setup, STATUS_DRIVEN, low, SetupStep::HostFeatures),
        SetupStep::HostFeatures => Setup {
            step: SetupStep::GuestFeatures,
            host_features: word,
            ..setup
        },
        SetupStep::FeaturesRead => reads_back(
            setup,
            STATUS_NEGOTIATED,
            low,
            SetupStep::FeaturesCheck,
        ),
        SetupStep::FeaturesCheck => if low / 8 % 2 == 1 {
            at(setup, SetupStep::SelectQueue)
        } else {
            gives_up(setup, VirtioBlkError::FeatureNegotiationFailed, true)
        },
        SetupStep::OldFrame => if word != 0 {
            gives_up(setup, VirtioBlkError::InvalidQueueLayout, true)
        } else {
            at(setup, SetupStep::QueueSize)
        },
        SetupStep::QueueSize => if usable_queue_size(half as int) {
            Setup { step: SetupStep::QueueMemory, queue_size: half, ..setup }
        } else {
            gives_up(setup, VirtioBlkError::InvalidQueueSize, false)
        },
        SetupStep::FrameRead => if word != setup.queue / 4096 {
            gives_up(setup, VirtioBlkError::InvalidQueueLayout, true)
        } else {
            at(setup, SetupStep::CapacityLow)
        },
        SetupStep::CapacityLow => Setup {
            step: SetupStep::CapacityHigh,
            capacity_low: word,
            ..setup
        },
        SetupStep::CapacityHigh => Setup {
            step: SetupStep::UsedIndex,
            capacity_high: word,
            ..setup
        },
        SetupStep::UsedIndex => Setup {
            step: SetupStep::AvailableIndex,
            used_index: half,
            ..setup
        },
        SetupStep::AvailableIndex => if setup.used_index != 0 || half != 0 {
            gives_up(setup, VirtioBlkError::InvalidUsedRing, true)
        } else {
            at(setup, SetupStep::Ready)
        },
        SetupStep::ReadyRead => reads_back(setup, READY_STATUS, low, SetupStep::ReadyCheck),
        _ => match status_error(low, READY_STATUS) {
            Some(error) => gives_up(setup, error, false),
            None => at(setup, SetupStep::Finished),
        },
    }
}

/// The step after something was done.
pub open spec fn after_done(step: SetupStep) -> SetupStep {
    match step {
        SetupStep::MaskMsix => SetupStep::ReadCommand,
        SetupStep::WriteCommand => SetupStep::Identity,
        SetupStep::MapTable => SetupStep::MaskVector,
        SetupStep::MaskVector => SetupStep::OpenPorts,
        SetupStep::OpenPorts => SetupStep::Reset,
        SetupStep::Reset => SetupStep::ResetRead,
        SetupStep::Acknowledge => SetupStep::AcknowledgeRead,
        SetupStep::Driver => SetupStep::DriverRead,
        SetupStep::GuestFeatures => SetupStep::Features,
        SetupStep::Features => SetupStep::FeaturesRead,
        SetupStep::SelectQueue => SetupStep::OldFrame,
        SetupStep::Frame => SetupStep::FrameRead,
        _ => SetupStep::ReadyRead,
    }
}

/// What pages lead to.
pub open spec fn after_memory(setup: Setup, physical: u64) -> Setup {
    match setup.step {
        SetupStep::QueueMemory => if !is_addressable(
            physical,
            4096 * layout_spec(setup.queue_size as int).pages,
        ) {
            gives_up(setup, VirtioBlkError::AddressOverflow, false)
        } else if physical % 4096 != 0 || physical / 4096 > u32::MAX {
            gives_up(setup, VirtioBlkError::UnsupportedDmaAddress, true)
        } else {
            Setup { step: SetupStep::RequestMemory, queue: physical, ..setup }
        },
        SetupStep::RequestMemory => if !is_addressable(physical, 4096) {
            gives_up(setup, VirtioBlkError::AddressOverflow, false)
        } else {
            Setup { step: SetupStep::DataMemory, requests: physical, ..setup }
        },
        _ => if !is_addressable(physical, 4096) {
            gives_up(setup, VirtioBlkError::AddressOverflow, false)
        } else {
            Setup { step: SetupStep::Frame, data: physical, ..setup }
        },
    }
}

/// What a reply leads to.
pub open spec fn after_reply(setup: Setup, reply: SetupReply) -> Setup {
    match reply {
        SetupReply::Word(word) => after_word(setup, word),
        SetupReply::Done => at(setup, after_done(setup.step)),
        SetupReply::Msix(msix) => Setup {
            step: if msix is Some {
                SetupStep::MaskMsix
            } else {
                SetupStep::ReadCommand
            },
            msix,
            ..setup
        },
        SetupReply::Bar(size) => {
            let table = setup.msix->Some_0;
            if table.table_size == 0 || size == 0 || size > MAX_MSIX_BAR_SIZE || table.table_offset
                + MSIX_TABLE_ENTRY_BYTES > size {
                gives_up(setup, VirtioBlkError::InvalidMsixTable, false)
            } else {
                at(setup, SetupStep::MapTable)
            }
        },
        SetupReply::Memory(physical) => after_memory(setup, physical),
        SetupReply::Failed(error) => gives_up(setup, error, false),
    }
}

/// The queue size is known in this step.
pub open spec fn has_queue(step: SetupStep) -> bool {
    match step {
        SetupStep::QueueMemory | SetupStep::RequestMemory | SetupStep::DataMemory
        | SetupStep::Frame | SetupStep::FrameRead | SetupStep::CapacityLow
        | SetupStep::CapacityHigh | SetupStep::UsedIndex | SetupStep::AvailableIndex
        | SetupStep::Ready | SetupStep::ReadyRead | SetupStep::ReadyCheck
        | SetupStep::Finished => true,
        _ => false,
    }
}

/// The request memory is known in this step.
pub open spec fn has_requests(step: SetupStep) -> bool {
    has_queue(step) && step != SetupStep::QueueMemory && step != SetupStep::RequestMemory
}

impl Setup {
    /// What a step relies on is known.
    pub open spec fn wf(&self) -> bool {
        &&& match self.step {
            SetupStep::ProbeTable | SetupStep::MapTable | SetupStep::MaskVector => self.msix is Some,
            _ => true,
        }
        &&& has_queue(self.step) ==> usable_queue_size(self.queue_size as int)
        &&& has_queue(self.step) && self.step != SetupStep::QueueMemory ==> self.queue % 4096 == 0
            && self.queue / 4096 <= u32::MAX
        &&& has_requests(self.step) ==> is_addressable(self.requests, 4096)
    }

    /// Begins with a device that was found.
    pub fn new() -> (result: (Setup, SetupRequest))
        ensures
            result.0.wf(),
            result.0 == (Setup {
                step: SetupStep::Bar0,
                base: 0,
                msix: None,
                command: 0,
                host_features: 0,
                queue_size: 0,
                queue: 0,
                requests: 0,
                data: 0,
                capacity_low: 0,
                capacity_high: 0,
                used_index: 0,
            }),
            result.1 == asks(result.0),
    {
        let setup = Setup {
            step: SetupStep::Bar0,
            base: 0,
            msix: None,
            command: 0,
            host_features: 0,
            queue_size: 0,
            queue: 0,
            requests: 0,
            data: 0,
            capacity_low: 0,
            capacity_high: 0,
            used_index: 0,
        };
        (setup, setup.request())
    }

    fn request(&self) -> (request: SetupRequest)
        requires
            self.wf(),
        ensures
            request == asks(*self),
    {
        match self.step {
            SetupStep::Bar0 => SetupRequest::PciRead32 { offset: PCI_BAR0 },
            SetupStep::FindMsix => SetupRequest::FindMsix,
            SetupStep::MaskMsix => SetupRequest::MsixControl { enabled: false, masked: true },
            SetupStep::ReadCommand => SetupRequest::PciRead16 { offset: PCI_COMMAND },
            SetupStep::WriteCommand => SetupRequest::PciWrite16 {
                offset: PCI_COMMAND,
                value: self.command | PCI_COMMAND_ENABLE,
            },
            SetupStep::Identity => SetupRequest::PciRead32 { offset: PCI_IDENTITY },
            SetupStep::ProbeTable => SetupRequest::ProbeBar { bar: self.table().table_bar },
            SetupStep::MapTable => SetupRequest::MapTable,
            SetupStep::MaskVector => SetupRequest::TableWrite {
                offset: self.table().table_offset as u64 + MSIX_ENTRY_VECTOR_CONTROL,
                value: MSIX_VECTOR_MASKED,
            },
            SetupStep::OpenPorts => SetupRequest::OpenPorts { base: self.base },
            SetupStep::Reset => write_status(0),
            SetupStep::Acknowledge => write_status(STATUS_ACKNOWLEDGED),
            SetupStep::Driver => write_status(STATUS_DRIVEN),
            SetupStep::Features => write_status(STATUS_NEGOTIATED),
            SetupStep::Ready => write_status(READY_STATUS),
            SetupStep::ResetRead | SetupStep::AcknowledgeRead | SetupStep::DriverRead
            | SetupStep::FeaturesRead | SetupStep::FeaturesCheck | SetupStep::ReadyRead
            | SetupStep::ReadyCheck => SetupRequest::Read8 { register: REG_DEVICE_STATUS },
            SetupStep::HostFeatures => SetupRequest::Read32 { register: REG_HOST_FEATURES },
            SetupStep::GuestFeatures => SetupRequest::Write32 {
                register: REG_GUEST_FEATURES,
                word: negotiate_features(self.host_features),
            },
            SetupStep::SelectQueue => SetupRequest::Write16 {
                register: REG_QUEUE_SELECT,
                value: 0,
            },
            SetupStep::OldFrame | SetupStep::FrameRead => SetupRequest::Read32 {
                register: REG_QUEUE_PFN,
            },
            SetupStep::QueueSize => SetupRequest::Read16 { register: REG_QUEUE_SIZE },
            SetupStep::QueueMemory => SetupRequest::Allocate { pages: self.layout().pages },
            SetupStep::RequestMemory | SetupStep::DataMemory => SetupRequest::Allocate {
                pages: 1,
            },
            SetupStep::Frame => SetupRequest::Write32 {
                register: REG_QUEUE_PFN,
                word: (self.queue / 4096) as u32,
            },
            SetupStep::CapacityLow => SetupRequest::Read32 {
                register: transitional_config_base(false),
            },
            SetupStep::CapacityHigh => SetupRequest::Read32 {
                register: transitional_config_base(false) + 4,
            },
            SetupStep::UsedIndex => SetupRequest::QueueRead { offset: self.layout().used + 2 },
            SetupStep::AvailableIndex => SetupRequest::QueueRead {
                offset: self.layout().available + 2,
            },
            SetupStep::Finished => SetupRequest::Finished,
            SetupStep::Failed { error, marked } => SetupRequest::Failed {
                error,
                status: if marked {
                    Some(STATUS_GIVEN_UP)
                } else {
                    None
                },
            },
        }
    }

    fn table(&self) -> (table: MsixCapability)
        requires
            self.msix is Some,
        ensures
            table == self.msix->Some_0,
    {
        match self.msix {
            Some(table) => table,
            None => MsixCapability { table_bar: 0, table_offset: 0, table_size: 0 },
        }
    }

    fn layout(&self) -> (layout: QueueLayout)
        requires
            usable_queue_size(self.queue_size as int),
        ensures
            layout == layout_spec(self.queue_size as int),
    {
        match QueueLayout::new(self.queue_size) {
            Ok(layout) => layout,
            Err(_) => QueueLayout { descriptors: 0, available: 0, used: 0, bytes: 0, pages: 0 },
        }
    }

    fn go(self, step: SetupStep) -> (setup: Setup)
        ensures
            setup == at(self, step),
    {
        Setup {
            step,
            base: self.base,
            msix: self.msix,
            command: self.command,
            host_features: self.host_features,
            queue_size: self.queue_size,
            queue: self.queue,
            requests: self.requests,
            data: self.data,
            capacity_low: self.capacity_low,
            capacity_high: self.capacity_high,
            used_index: self.used_index,
        }
    }

    /// Goes on if nothing is wrong, or gives up.
    fn judge(self, checked: Result<(), VirtioBlkError>, marked: bool, next: SetupStep) -> (setup:
        Setup)
        ensures
            setup == (match checked {
                Ok(()) => at(self, next),
                Err(error) => gives_up(self, error, marked),
            }),
    {
        match checked {
            Ok(()) => self.go(next),
            Err(error) => self.go(SetupStep::Failed { error, marked }),
        }
    }

    fn on_word(self, word: u32) -> (setup: Setup)
        requires
            self.wf(),
            setup_reply_fits(self.step, SetupReply::Word(word)),
        ensures
            setup == after_word(self, word),
            setup.wf(),
    {
        let low: u8 = (word % 256) as u8;
        let half: u16 = (word % 0x1_0000) as u16;
        let mut setup: Setup = self;
        match self.step {
            SetupStep::Bar0 => match io_bar_base(word) {
                Err(error) => self.go(SetupStep::Failed { error, marked: false }),
                Ok(base) => {
                    setup.base = base;
                    setup.go(SetupStep::FindMsix)
                },
            },
            SetupStep::ReadCommand => {
                setup.command = half;
                setup.go(SetupStep::WriteCommand)
            },
            SetupStep::Identity => {
                if half != VIRTIO_VENDOR_ID || word / 0x1_0000
                    != VIRTIO_BLK_TRANSITIONAL_DEVICE_ID as u32 {
                    return self.go(
                        SetupStep::Failed {
                            error: VirtioBlkError::DeviceNotPresent,
                            marked: false,
                        },
                    );
                }
                match self.msix {
                    Some(_) => self.go(SetupStep::ProbeTable),
                    None => self.go(SetupStep::OpenPorts),
                }
            },
            SetupStep::ResetRead => if low != 0 {
                self.go(
                    SetupStep::Failed { error: VirtioBlkError::DeviceReset, marked: false },
                )
            } else {
                self.go(SetupStep::Acknowledge)
            },
            SetupStep::AcknowledgeRead => self.judge(
                check_status_write(STATUS_ACKNOWLEDGED, low),
                false,
                SetupStep::Driver,
            ),
            SetupStep::DriverRead => self.judge(
                check_status_write(STATUS_DRIVEN, low),
                false,
                SetupStep::HostFeatures,
            ),
            SetupStep::HostFeatures => {
                setup.host_features = word;
                setup.go(SetupStep::GuestFeatures)
            },
            SetupStep::FeaturesRead => self.judge(
                check_status_write(STATUS_NEGOTIATED, low),
                false,
                SetupStep::FeaturesCheck,
            ),
            SetupStep::FeaturesCheck => self.judge(
                check_features(low),
                true,
                SetupStep::SelectQueue,
            ),
            SetupStep::OldFrame => self.judge(
                check_queue_frame(0, word),
                true,
                SetupStep::QueueSize,
            ),
            SetupStep::QueueSize => match QueueLayout::new(half) {
                Err(error) => self.go(SetupStep::Failed { error, marked: false }),
                Ok(_) => {
                    setup.queue_size = half;
                    setup.go(SetupStep::QueueMemory)
                },
            },
            SetupStep::FrameRead => self.judge(
                check_queue_frame((self.queue / 4096) as u32, word),
                true,
                SetupStep::CapacityLow,
            ),
            SetupStep::CapacityLow => {
                setup.capacity_low = word;
                setup.go(SetupStep::CapacityHigh)
            },
            SetupStep::CapacityHigh => {
                setup.capacity_high = word;
                setup.go(SetupStep::UsedIndex)
            },
            SetupStep::UsedIndex => {
                setup.used_index = half;
                setup.go(SetupStep::AvailableIndex)
            },
            SetupStep::AvailableIndex => self.judge(
                check_fresh_rings(self.used_index, half),
                true,
                SetupStep::Ready,
            ),
            SetupStep::ReadyRead => self.judge(
                check_status_write(READY_STATUS, low),
                false,
                SetupStep::ReadyCheck,
            ),
            _ => self.judge(
                validate_operational_status(low, READY_STATUS),
                false,
                SetupStep::Finished,
            ),
        }
    }

    fn on_done(self) -> (setup: Setup)
        requires
            self.wf(),
            setup_reply_fits(self.step, SetupReply::Done),
        ensures
            setup == at(self, after_done(self.step)),
            setup.wf(),
    {
        match self.step {
            SetupStep::MaskMsix => self.go(SetupStep::ReadCommand),
            SetupStep::WriteCommand => self.go(SetupStep::Identity),
            SetupStep::MapTable => self.go(SetupStep::MaskVector),
            SetupStep::MaskVector => self.go(SetupStep::OpenPorts),
            SetupStep::OpenPorts => self.go(SetupStep::Reset),
            SetupStep::Reset => self.go(SetupStep::ResetRead),
            SetupStep::Acknowledge => self.go(SetupStep::AcknowledgeRead),
            SetupStep::Driver => self.go(SetupStep::DriverRead),
            SetupStep::GuestFeatures => self.go(SetupStep::Features),
            SetupStep::Features => self.go(SetupStep::FeaturesRead),
            SetupStep::SelectQueue => self.go(SetupStep::OldFrame),
            SetupStep::Frame => self.go(SetupStep::FrameRead),
            _ => self.go(SetupStep::ReadyRead),
        }
    }

    fn on_memory(self, physical: u64) -> (setup: Setup)
        requires
            self.wf(),
            setup_reply_fits(self.step, SetupReply::Memory(physical)),
        ensures
            setup == after_memory(self, physical),
            setup.wf(),
    {
        let pages: u64 = match self.step {
            SetupStep::QueueMemory => self.layout().pages as u64,
            _ => 1,
        };
        if physical > u64::MAX - (pages * 4096 - 1) {
            return self.go(
                SetupStep::Failed { error: VirtioBlkError::AddressOverflow, marked: false },
            );
        }
        let mut setup: Setup = self;
        match self.step {
            SetupStep::QueueMemory => match queue_frame(physical) {
                Err(error) => self.go(SetupStep::Failed { error, marked: true }),
                Ok(_) => {
                    setup.queue = physical;
                    setup.go(SetupStep::RequestMemory)
                },
            },
            SetupStep::RequestMemory => {
                setup.requests = physical;
                setup.go(SetupStep::DataMemory)
            },
            _ => {
                setup.data = physical;
                setup.go(SetupStep::Frame)
            },
        }
    }

    /// Takes what came of the last request and says what to do next.
    pub fn step(self, reply: SetupReply) -> (result: (Setup, SetupRequest))
        requires
            self.wf(),
            setup_reply_fits(self.step, reply),
        ensures
            result.0.wf(),
            result.0 == after_reply(self, reply),
            result.1 == asks(result.0),
    {
        let setup: Setup = match reply {
            SetupReply::Word(word) => self.on_word(word),
            SetupReply::Done => self.on_done(),
            SetupReply::Msix(msix) => {
                let mut setup: Setup = self;
                setup.msix = msix;
                match msix {
                    Some(_) => setup.go(SetupStep::MaskMsix),
                    None => setup.go(SetupStep::ReadCommand),
                }
            },
            SetupReply::Bar(size) => {
                let table: MsixCapability = self.table();
                self.judge(
                    validate_msix_table(table.table_size, table.table_offset, size),
                    false,
                    SetupStep::MapTable,
                )
            },
            SetupReply::Memory(physical) => self.on_memory(physical),
            SetupReply::Failed(error) => self.go(SetupStep::Failed { error, marked: false }),
        };
        (setup, setup.request())
    }

    /// The driver of a device that was set up.
    pub fn driver(&self) -> (result: Result<VirtioBlk, VirtioBlkError>)
        requires
            self.wf(),
            self.step == SetupStep::Finished,
        ensures
            result matches Ok(device) && {
                &&& device.wf()
                &&& device.queue_size == self.queue_size
                &&& device.requests_physical == self.requests
                &&& device.capacity_sectors == self.capacity_low + self.capacity_high
                    * 0x1_0000_0000
                &&& device.read_only == (self.host_features as int / 0x20 % 2 == 1)
                &&& device.flush_supported == (self.host_features as int / 0x200 % 2 == 1)
                &&& device.msix_available == (self.msix is Some)
                &&& device.reset_state == ResetState::Running
                &&& device.terminal_error is None
                &&& device.diagnostics == no_diagnostics()
                &&& device.watchdog_countdown == INTERRUPT_WATCHDOG_POLLS
                &&& forall|i: int|
                    0 <= i < MAX_SLOTS ==> #[trigger] device.slots@[i] == free_slot(0)
            },
    {
        VirtioBlk::new(
            self.queue_size,
            self.requests,
            capacity_from_words(self.capacity_low, self.capacity_high),
            self.host_features,
            self.msix.is_some(),
        )
    }
}

fn write_status(value: u8) -> (request: SetupRequest)
    ensures
        request == writes_status(value),
{
    SetupRequest::Write8 { register: REG_DEVICE_STATUS, value }
}

/// One access of the programming of interrupts.
#[derive(Clone, Copy, Debug, PartialEq, Eq, Structural)]
pub enum MsixStep {
    /// Store a word in the interrupt table.
    Table { offset: u64, word: u32 },
    /// Make the stores visible to the device.
    Fence,
    /// Switch interrupts on or off, and mask them or not.
    Control { enabled: bool, masked: bool },
    /// Store a vector in a port.
    Vector { register: u16, value: u16 },
    /// Read and drop the interrupt status.
    Acknowledge,
}

/// The accesses that fill the first table entry and assign it to the queue, all masked.
pub open spec fn msix_program_spec(table_offset: u32, destination_apic_id: u8, vector: u8) -> Seq<
    MsixStep,
> {
    let entry = table_offset as u64;
    seq![
        MsixStep::Table { offset: (entry + 12) as u64, word: MSIX_VECTOR_MASKED },
        MsixStep::Table {
            offset: entry,
            word: (MSI_ADDRESS_BASE + destination_apic_id * 4096) as u32,
        },
        MsixStep::Table { offset: (entry + 4) as u64, word: 0 },
        MsixStep::Table { offset: (entry + 8) as u64, word: vector as u32 },
        MsixStep::Fence,
        MsixStep::Control { enabled: true, masked: true },
        MsixStep::Vector { register: REG_MSIX_CONFIG_VECTOR, value: MSIX_NO_VECTOR },
        MsixStep::Vector { register: REG_QUEUE_SELECT, value: 0 },
        MsixStep::Vector { register: REG_MSIX_QUEUE_VECTOR, value: 0 },
    ]
}

/// The accesses that fill the first table entry and assign it to the queue, all masked.
pub fn msix_program_steps(table_offset: u32, destination_apic_id: u8, vector: u8) -> (steps: Vec<
    MsixStep,
>)
    ensures
        steps@ == msix_program_spec(table_offset, destination_apic_id, vector),
{
    let entry: u64 = table_offset as u64;
    let (low, high, data): (u32, u32, u32) = msix_entry(destination_apic_id, vector);
    let mut steps: Vec<MsixStep> = Vec::new();
    steps.push(
        MsixStep::Table { offset: entry + MSIX_ENTRY_VECTOR_CONTROL, word: MSIX_VECTOR_MASKED },
    );
    steps.push(MsixStep::Table { offset: entry, word: low });
    steps.push(MsixStep::Table { offset: entry + 4, word: high });
    steps.push(MsixStep::Table { offset: entry + 8, word: data });
    steps.push(MsixStep::Fence);
    steps.push(MsixStep::Control { enabled: true, masked: true });
    steps.push(MsixStep::Vector { register: REG_MSIX_CONFIG_VECTOR, value: MSIX_NO_VECTOR });
    steps.push(MsixStep::Vector { register: REG_QUEUE_SELECT, value: 0 });
    steps.push(MsixStep::Vector { register: REG_MSIX_QUEUE_VECTOR, value: 0 });
    assert(steps@ =~= msix_program_spec(table_offset, destination_apic_id, vector));
    steps
}

/// The accesses that unmask the first table entry.
pub open spec fn msix_unmask_spec(table_offset: u32) -> Seq<MsixStep> {
    seq![
        MsixStep::Table { offset: (table_offset + 12) as u64, word: 0 },
        MsixStep::Fence,
        MsixStep::Control { enabled: true, masked: false },
        MsixStep::Acknowledge,
    ]
}

/// Judges the vectors that the device took, and unmasks the first table entry if they are right.
pub fn msix_unmask_steps(table_offset: u32, config: u16, queue: u16) -> (result: Result<
    Vec<MsixStep>,
    VirtioBlkError,
>)
    ensures
        match result {
            Ok(steps) => config == MSIX_NO_VECTOR && queue == 0 && steps@ == msix_unmask_spec(
                table_offset,
            ),
            Err(error) => (config != MSIX_NO_VECTOR || queue != 0) && error
                == VirtioBlkError::MsixRejected,
        },
{
    match check_msix_vectors(config, queue) {
        Ok(()) => {},
        Err(error) => {
            return Err(error);
        },
    }
    let mut steps: Vec<MsixStep> = Vec::new();
    steps.push(MsixStep::Table { offset: table_offset as u64 + MSIX_ENTRY_VECTOR_CONTROL, word: 0 });
    steps.push(MsixStep::Fence);
    steps.push(MsixStep::Control { enabled: true, masked: false });
    steps.push(MsixStep::Acknowledge);
    assert(steps@ =~= msix_unmask_spec(table_offset));
    Ok(steps)
}

/// The accesses that mask the first table entry and switch interrupts off.
pub fn msix_mask_steps(table_offset: u32) -> (steps: Vec<MsixStep>)
    ensures
        steps@ == seq![
            MsixStep::Table { offset: (table_offset + 12) as u64, word: MSIX_VECTOR_MASKED },
            MsixStep::Control { enabled: false, masked: true },
        ],
{
    let mut steps: Vec<MsixStep> = Vec::new();
    steps.push(
        MsixStep::Table {
            offset: table_offset as u64 + MSIX_ENTRY_VECTOR_CONTROL,
            word: MSIX_VECTOR_MASKED,
        },
    );
    steps.push(MsixStep::Control { enabled: false, masked: true });
    assert(steps@ =~= seq![
        MsixStep::Table { offset: (table_offset + 12) as u64, word: MSIX_VECTOR_MASKED },
        MsixStep::Control { enabled: false, masked: true },
    ]);
    steps
}

/// The table entry stays masked until it is filled and the device has taken its vectors.
pub proof fn law_interrupts_are_masked_while_programmed(
    table_offset: u32,
    destination_apic_id: u8,
    vector: u8,
    step: int,
)
    requires
        0 <= step < msix_program_spec(table_offset, destination_apic_id, vector).len(),
    ensures
        msix_program_spec(table_offset, destination_apic_id, vector)[0] == (MsixStep::Table {
            offset: (table_offset + 12) as u64,
            word: MSIX_VECTOR_MASKED,
        }),
        msix_program_spec(
            table_offset,
            destination_apic_id,
            vector,
        )[step] matches MsixStep::Control { enabled, masked } ==> masked,
        step > 0 ==> (msix_program_spec(
            table_offset,
            destination_apic_id,
            vector,
        )[step] matches MsixStep::Table { offset, word } ==> offset != table_offset + 12),
{
}

/// A device is told that its driver gave up exactly where the driver gives up over what the device
/// offered after it had accepted the driver, and a device that is ready was never told so.
pub proof fn law_rejected_devices_are_told(setup: Setup, reply: SetupReply)
    requires
        setup.wf(),
        setup_reply_fits(setup.step, reply),
    ensures
        asks(after_reply(setup, reply)) matches SetupRequest::Failed { error, status } ==> (
        status == Some(STATUS_GIVEN_UP) <==> match setup.step {
            SetupStep::FeaturesCheck | SetupStep::OldFrame | SetupStep::FrameRead
            | SetupStep::AvailableIndex => reply is Word,
            SetupStep::QueueMemory => error == VirtioBlkError::UnsupportedDmaAddress
                && reply is Memory,
            _ => false,
        }),
        after_reply(setup, reply).step == SetupStep::Finished ==> setup.step
            == SetupStep::ReadyCheck && usable_queue_size(setup.queue_size as int),
{
}

} // verus!
