use ginkgo_kernel::virtio_blk::queue::{
    VirtioBlkError, READY_STATUS, REG_DEVICE_STATUS, REG_GUEST_FEATURES, REG_MSIX_QUEUE_VECTOR,
    REG_QUEUE_PFN, SUPPORTED_FEATURES,
};
use ginkgo_kernel::virtio_blk::setup::{
    msix_mask_steps, msix_program_steps, msix_unmask_steps, MsixCapability, MsixStep, Setup,
    SetupReply, SetupRequest, SetupStep, MSIX_VECTOR_MASKED, STATUS_GIVEN_UP, STATUS_NEGOTIATED,
};
use ginkgo_kernel::window::interrupt_table_windows;

/// Answers as a small device does, and remembers what was written.
struct Device {
    status: u8,
    host_features: u32,
    queue_frame: u32,
    queue_size: u16,
    used_index: u32,
    msix: Option<MsixCapability>,
    writes: Vec<SetupRequest>,
}

impl Device {
    fn new() -> Self {
        Self {
            status: 0,
            host_features: 0xffff_ffff,
            queue_frame: 0,
            queue_size: 128,
            used_index: 0,
            msix: None,
            writes: Vec::new(),
        }
    }

    fn answer(&mut self, request: SetupRequest) -> SetupReply {
        match request {
            SetupRequest::PciRead32 { offset: 0x10 } => SetupReply::Word(0xc001),
            SetupRequest::PciRead32 { .. } => SetupReply::Word(0x1001_1af4),
            SetupRequest::PciRead16 { .. } => SetupReply::Word(0x0400),
            SetupRequest::FindMsix => SetupReply::Msix(self.msix),
            SetupRequest::ProbeBar { .. } => SetupReply::Bar(0x1000),
            SetupRequest::Read8 { .. } => SetupReply::Word(self.status.into()),
            SetupRequest::Read16 { .. } => SetupReply::Word(self.queue_size.into()),
            SetupRequest::Read32 { register: 0x00 } => SetupReply::Word(self.host_features),
            SetupRequest::Read32 { register: 0x08 } => SetupReply::Word(self.queue_frame),
            SetupRequest::Read32 { register: 0x14 } => SetupReply::Word(2048),
            SetupRequest::Read32 { .. } => SetupReply::Word(1),
            SetupRequest::QueueRead { .. } => SetupReply::Word(self.used_index),
            SetupRequest::Allocate { pages } => SetupReply::Memory(0x10_0000 * pages as u64),
            SetupRequest::Write8 { value, .. } => {
                self.status = value;
                self.writes.push(request);
                SetupReply::Done
            }
            SetupRequest::Write32 {
                register: REG_QUEUE_PFN,
                word,
            } => {
                self.queue_frame = word;
                self.writes.push(request);
                SetupReply::Done
            }
            _ => {
                self.writes.push(request);
                SetupReply::Done
            }
        }
    }

    fn run(&mut self) -> (Setup, SetupRequest) {
        let (mut setup, mut request) = Setup::new();
        while !matches!(
            request,
            SetupRequest::Finished | SetupRequest::Failed { .. }
        ) {
            (setup, request) = setup.step(self.answer(request));
        }
        (setup, request)
    }
}

#[test]
fn a_device_is_set_up_in_order() {
    let mut device = Device::new();
    let (setup, request) = device.run();
    assert_eq!(request, SetupRequest::Finished);
    assert_eq!(setup.base, 0xc000);
    let status = |value| SetupRequest::Write8 {
        register: REG_DEVICE_STATUS,
        value,
    };
    assert_eq!(
        device.writes,
        vec![
            SetupRequest::PciWrite16 {
                offset: 4,
                value: 0x0407
            },
            SetupRequest::OpenPorts { base: 0xc000 },
            status(0),
            status(1),
            status(3),
            SetupRequest::Write32 {
                register: REG_GUEST_FEATURES,
                word: SUPPORTED_FEATURES
            },
            status(STATUS_NEGOTIATED),
            SetupRequest::Write16 {
                register: 0x0e,
                value: 0
            },
            SetupRequest::Write32 {
                register: REG_QUEUE_PFN,
                word: 0x200
            },
            status(READY_STATUS),
        ]
    );
    let driver = setup.driver().unwrap();
    assert_eq!(driver.capacity_sectors(), 2048 + (1 << 32));
    assert!(driver.read_only);
    assert!(driver.flush_supported);
    assert!(!driver.msix_available);
}

#[test]
fn interrupts_stay_masked_while_a_device_is_set_up() {
    let mut device = Device::new();
    device.msix = Some(MsixCapability {
        table_bar: 1,
        table_offset: 0x40,
        table_size: 2,
    });
    let (setup, request) = device.run();
    assert_eq!(request, SetupRequest::Finished);
    assert!(setup.driver().unwrap().msix_available);
    assert_eq!(
        device.writes[0],
        SetupRequest::MsixControl {
            enabled: false,
            masked: true
        }
    );
    assert!(device.writes.contains(&SetupRequest::MapTable));
    assert!(device.writes.contains(&SetupRequest::TableWrite {
        offset: 0x4c,
        value: MSIX_VECTOR_MASKED
    }));

    let mut device = Device::new();
    device.msix = Some(MsixCapability {
        table_bar: 1,
        table_offset: 0xff8,
        table_size: 2,
    });
    assert_eq!(
        device.run().1,
        SetupRequest::Failed {
            error: VirtioBlkError::InvalidMsixTable,
            status: None
        }
    );
}

#[test]
fn a_device_that_offers_no_usable_queue_is_refused() {
    let mut device = Device::new();
    device.queue_frame = 5;
    assert_eq!(
        device.run().1,
        SetupRequest::Failed {
            error: VirtioBlkError::InvalidQueueLayout,
            status: Some(STATUS_GIVEN_UP)
        }
    );
    let mut device = Device::new();
    device.queue_size = 8;
    assert_eq!(
        device.run().1,
        SetupRequest::Failed {
            error: VirtioBlkError::InvalidQueueSize,
            status: None
        }
    );
    let mut device = Device::new();
    device.used_index = 1;
    assert_eq!(
        device.run().1,
        SetupRequest::Failed {
            error: VirtioBlkError::InvalidUsedRing,
            status: Some(STATUS_GIVEN_UP)
        }
    );
}

#[test]
fn failures_on_the_way_end_the_setup() {
    let (setup, _) = Setup::new();
    let (setup, request) = setup.step(SetupReply::Word(0xc000));
    assert_eq!(
        request,
        SetupRequest::Failed {
            error: VirtioBlkError::InvalidIoBar,
            status: None
        }
    );
    assert!(matches!(setup.step, SetupStep::Failed { marked: false, .. }));
    let (setup, _) = Setup::new();
    let (_, request) = setup.step(SetupReply::Failed(VirtioBlkError::OutOfFrames));
    assert_eq!(
        request,
        SetupRequest::Failed {
            error: VirtioBlkError::OutOfFrames,
            status: None
        }
    );
}

#[test]
fn interrupts_are_programmed_masked_and_unmasked_last() {
    let steps = msix_program_steps(0x40, 2, 0x51);
    assert_eq!(
        steps[..4],
        [
            MsixStep::Table {
                offset: 0x4c,
                word: MSIX_VECTOR_MASKED
            },
            MsixStep::Table {
                offset: 0x40,
                word: 0xfee0_2000
            },
            MsixStep::Table {
                offset: 0x44,
                word: 0
            },
            MsixStep::Table {
                offset: 0x48,
                word: 0x51
            },
        ]
    );
    assert_eq!(
        steps.last(),
        Some(&MsixStep::Vector {
            register: REG_MSIX_QUEUE_VECTOR,
            value: 0
        })
    );
    assert_eq!(
        msix_unmask_steps(0x40, 0xffff, 1),
        Err(VirtioBlkError::MsixRejected)
    );
    let unmask = msix_unmask_steps(0x40, 0xffff, 0).unwrap();
    assert_eq!(
        unmask[0],
        MsixStep::Table {
            offset: 0x4c,
            word: 0
        }
    );
    assert_eq!(unmask.last(), Some(&MsixStep::Acknowledge));
    assert_eq!(
        msix_mask_steps(0x40)[1],
        MsixStep::Control {
            enabled: false,
            masked: true
        }
    );
}

#[test]
fn interrupt_tables_have_windows_of_their_own() {
    assert_eq!(interrupt_table_windows()[0], 0xffff_ac00_0000_0000);
    assert_eq!(interrupt_table_windows().len(), 4);
}
