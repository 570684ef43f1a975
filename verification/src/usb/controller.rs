//! Decisions of the xHCI controller driver: what the registers mean, which
//! stores they call for, and which errors they amount to.
use std::collections::VecDeque;

use vstd::prelude::*;

use super::error::UsbError;
use super::page::{lemma_extends_trans, DmaPage, PageWrite};
use super::ring::{
    trb_control, trb_control_spec, Trb, COMPLETION_SUCCESS, TRB_TYPE_ADDRESS_DEVICE_COMMAND,
    TRB_TYPE_COMMAND_COMPLETION_EVENT, TRB_TYPE_CONFIGURE_ENDPOINT_COMMAND,
    TRB_TYPE_DISABLE_SLOT_COMMAND, TRB_TYPE_ENABLE_SLOT_COMMAND, TRB_TYPE_EVALUATE_CONTEXT_COMMAND,
};

verus! {

/// Most devices that the driver addresses.
pub const MAX_DEVICES: usize = 16;

/// Largest register window that is mapped.
pub const MAX_MMIO_SIZE: u64 = 16 * 1024 * 1024;

/// Seconds that a controller operation may take.
pub const WAIT_SECONDS: u64 = 5;

/// Time-stamp frequency that is used when none is known.
pub const FALLBACK_TSC_FREQUENCY: u64 = 1_000_000_000;

/// Most extended capabilities that are visited.
pub const MAX_EXTENDED_CAPABILITIES: usize = 64;

/// Most scratchpad pages that one array page can hold.
pub const MAX_SCRATCHPADS: u32 = 512;

/// The change bits of a port register, which are cleared by writing them back.
pub const PORTSC_CHANGE_BITS: u32 = 0x00fe_0000;

/// The port register bits that an acknowledging write must repeat.
pub const PORTSC_WRITE_PRESERVE: u32 = 0x0e00_c200;

pub const USBCMD_RUN_STOP: u32 = 0x1;

pub const USBCMD_HOST_CONTROLLER_RESET: u32 = 0x2;

pub const USBCMD_INTERRUPTER_ENABLE: u32 = 0x4;

pub const USBSTS_HOST_CONTROLLER_HALTED: u32 = 0x1;

pub const USBSTS_HOST_SYSTEM_ERROR: u32 = 0x4;

pub const USBSTS_CONTROLLER_NOT_READY: u32 = 0x800;

pub const USBSTS_HOST_CONTROLLER_ERROR: u32 = 0x1000;

pub const PORT_CONNECTED: u32 = 0x1;

pub const PORT_ENABLED: u32 = 0x2;

pub const PORT_RESET: u32 = 0x10;

pub const PORT_POWER: u32 = 0x200;

pub const WARM_PORT_RESET: u32 = 0x8000_0000;

/// A root port's status and control register.
#[derive(Clone, Copy, Debug, PartialEq, Eq, Structural)]
pub struct PortStatus {
    pub bits: u32,
}

/// Bit `weight` is set in `word`.
pub open spec fn bit_set(word: u32, weight: u32) -> bool {
    word & weight != 0
}

impl PortStatus {
    /// Whether a device is attached.
    pub fn connected(self) -> (result: bool)
        ensures
            result == bit_set(self.bits, PORT_CONNECTED),
    {
        self.bits & PORT_CONNECTED != 0
    }

    /// Whether the port is enabled.
    pub fn enabled(self) -> (result: bool)
        ensures
            result == bit_set(self.bits, PORT_ENABLED),
    {
        self.bits & PORT_ENABLED != 0
    }

    /// Whether the port is powered.
    pub fn powered(self) -> (result: bool)
        ensures
            result == bit_set(self.bits, PORT_POWER),
    {
        self.bits & PORT_POWER != 0
    }

    /// The speed code of the attached device.
    pub open spec fn speed_spec(self) -> int {
        self.bits as int / 0x400 % 16
    }

    /// The speed code of the attached device.
    pub fn speed(self) -> (speed: u8)
        ensures
            speed == self.speed_spec(),
    {
        (self.bits / 0x400 % 16) as u8
    }

    /// The write that acknowledges the pending changes, if there are any.
    pub open spec fn acknowledge_spec(self) -> Option<u32> {
        if self.bits & PORTSC_CHANGE_BITS != 0 {
            Some((self.bits & PORTSC_WRITE_PRESERVE) | (self.bits & PORTSC_CHANGE_BITS))
        } else {
            None
        }
    }

    /// The write that acknowledges the pending changes, if there are any.
    pub fn acknowledge(self) -> (write: Option<u32>)
        ensures
            write == self.acknowledge_spec(),
    {
        let changes: u32 = self.bits & PORTSC_CHANGE_BITS;
        if changes != 0 {
            Some((self.bits & PORTSC_WRITE_PRESERVE) | changes)
        } else {
            None
        }
    }
}

/// Acknowledging keeps the port enabled: the write never repeats the enable bit.
pub proof fn law_acknowledge_never_disables(status: PortStatus)
    ensures
        status.acknowledge_spec() matches Some(write) ==> write & PORT_ENABLED == 0,
{
    let bits = status.bits;
    assert(((bits & 0x0e00_c200u32) | (bits & 0x00fe_0000u32)) & 0x2u32 == 0) by (bit_vector);
}

/// Whether a port reset can begin, and whether power has to be switched on first.
pub fn reset_begin(status: PortStatus) -> (needs_power: Result<bool, UsbError>)
    ensures
        needs_power == (if bit_set(status.bits, PORT_CONNECTED) {
            Ok(!bit_set(status.bits, PORT_POWER))
        } else {
            Err(UsbError::PortDisconnected)
        }),
{
    if !status.connected() {
        return Err(UsbError::PortDisconnected);
    }
    Ok(!status.powered())
}

/// A reset: the register write, and the bit that stays set while it runs.
#[derive(Clone, Copy, Debug, PartialEq, Eq)]
pub struct PortResetRequest {
    pub write: u32,
    pub busy_bit: u32,
}

/// The reset that a powered port needs.
///
/// A SuperSpeed port that came up enabled needs none; otherwise it gets a warm reset.
pub fn reset_request(status: PortStatus) -> (request: Option<PortResetRequest>)
    ensures
        request == (if status.speed_spec() >= 4 {
            if bit_set(status.bits, PORT_ENABLED) {
                None
            } else {
                Some(
                    PortResetRequest {
                        write: (status.bits & PORT_POWER) | WARM_PORT_RESET,
                        busy_bit: WARM_PORT_RESET,
                    },
                )
            }
        } else {
            Some(
                PortResetRequest {
                    write: (status.bits & PORT_POWER) | PORT_RESET,
                    busy_bit: PORT_RESET,
                },
            )
        }),
{
    if status.speed() >= 4 {
        if status.enabled() {
            None
        } else {
            Some(
                PortResetRequest {
                    write: (status.bits & PORT_POWER) | WARM_PORT_RESET,
                    busy_bit: WARM_PORT_RESET,
                },
            )
        }
    } else {
        Some(
            PortResetRequest {
                write: (status.bits & PORT_POWER) | PORT_RESET,
                busy_bit: PORT_RESET,
            },
        )
    }
}

/// The outcome of a finished port reset: the speed code of the device.
pub fn reset_result(status: PortStatus) -> (result: Result<u8, UsbError>)
    ensures
        result == (if !bit_set(status.bits, PORT_CONNECTED) {
            Err(UsbError::PortDisconnected)
        } else if !bit_set(status.bits, PORT_ENABLED) || status.speed_spec() == 0 {
            Err(UsbError::PortResetFailed)
        } else {
            Ok(status.speed_spec() as u8)
        }),
{
    if !status.connected() {
        return Err(UsbError::PortDisconnected);
    }
    if !status.enabled() {
        return Err(UsbError::PortResetFailed);
    }
    let speed: u8 = status.speed();
    if speed == 0 {
        return Err(UsbError::PortResetFailed);
    }
    Ok(speed)
}

/// The capability registers of a controller.
#[derive(Clone, Copy, Debug, PartialEq, Eq)]
pub struct CapabilityRegisters {
    pub capability_length: u8,
    pub hcsparams1: u32,
    pub hcsparams2: u32,
    pub hccparams1: u32,
    pub doorbell_offset: u32,
    pub runtime_offset: u32,
}

/// Where the registers are and what the controller supports.
#[derive(Clone, Copy, Debug, PartialEq, Eq)]
pub struct XhciLayout {
    pub operational: u64,
    pub runtime: u64,
    pub doorbells: u64,
    pub max_slots: u8,
    pub max_ports: u8,
    pub context_size: usize,
    pub address_64: bool,
}

/// A register of `width` bytes at `offset` lies in the window.
pub open spec fn in_window(offset: int, width: int, length: int) -> bool {
    offset + width <= length
}

/// The layout that the capability registers describe.
pub open spec fn layout_spec(raw: CapabilityRegisters) -> XhciLayout {
    let slots = raw.hcsparams1 as int % 256;
    XhciLayout {
        operational: raw.capability_length as u64,
        runtime: (raw.runtime_offset - raw.runtime_offset % 32) as u64,
        doorbells: (raw.doorbell_offset - raw.doorbell_offset % 4) as u64,
        max_slots: (if slots < MAX_DEVICES {
            slots
        } else {
            MAX_DEVICES as int
        }) as u8,
        max_ports: (raw.hcsparams1 as int / 0x100_0000) as u8,
        context_size: if raw.hccparams1 as int / 4 % 2 == 1 {
            64
        } else {
            32
        },
        address_64: raw.hccparams1 % 2 == 1,
    }
}

/// Every register that the driver touches lies in a window of `length` bytes.
pub open spec fn registers_fit(layout: XhciLayout, length: int) -> bool {
    &&& in_window(layout.operational + 0x400 + (layout.max_ports - 1) * 0x10, 4, length)
    &&& in_window(layout.runtime + 0x38, 8, length)
    &&& in_window(layout.doorbells + layout.max_slots * 4, 4, length)
}

/// Decodes and checks the capability registers.
pub fn decode_capabilities(raw: CapabilityRegisters, window: u64) -> (result: Result<
    XhciLayout,
    UsbError,
>)
    ensures
        result == (if raw.capability_length < 0x20 || raw.hcsparams1 % 256 == 0 || raw.hcsparams1
            / 0x100_0000 == 0 {
            Err(UsbError::InvalidCapability)
        } else if !registers_fit(layout_spec(raw), window as int) {
            Err(UsbError::MmioOutOfRange)
        } else {
            Ok(layout_spec(raw))
        }),
{
    if raw.capability_length < 0x20 {
        return Err(UsbError::InvalidCapability);
    }
    let slots: u32 = raw.hcsparams1 % 256;
    let ports: u32 = raw.hcsparams1 / 0x100_0000;
    if slots == 0 || ports == 0 {
        return Err(UsbError::InvalidCapability);
    }
    let max_slots: u8 = if slots < MAX_DEVICES as u32 {
        slots as u8
    } else {
        MAX_DEVICES as u8
    };
    let max_ports: u8 = ports as u8;
    let layout = XhciLayout {
        operational: raw.capability_length as u64,
        runtime: (raw.runtime_offset - raw.runtime_offset % 32) as u64,
        doorbells: (raw.doorbell_offset - raw.doorbell_offset % 4) as u64,
        max_slots,
        max_ports,
        context_size: if raw.hccparams1 / 4 % 2 == 1 {
            64
        } else {
            32
        },
        address_64: raw.hccparams1 % 2 == 1,
    };
    let last_port: u64 = layout.operational + 0x400 + (max_ports as u64 - 1) * 0x10;
    if last_port + 4 > window {
        return Err(UsbError::MmioOutOfRange);
    }
    if layout.runtime + 0x38 + 8 > window {
        return Err(UsbError::MmioOutOfRange);
    }
    if layout.doorbells + max_slots as u64 * 4 + 4 > window {
        return Err(UsbError::MmioOutOfRange);
    }
    Ok(layout)
}

impl XhciLayout {
    /// The register of root port `port`.
    pub fn port_offset(&self, port: u8) -> (result: Result<u64, UsbError>)
        requires
            self.operational <= 0xff,
        ensures
            result == (if port == 0 || port > self.max_ports {
                Err(UsbError::InvalidPort)
            } else {
                Ok((self.operational + 0x400 + (port - 1) * 0x10) as u64)
            }),
    {
        if port == 0 || port > self.max_ports {
            return Err(UsbError::InvalidPort);
        }
        Ok(self.operational + 0x400 + (port as u64 - 1) * 0x10)
    }

    /// The doorbell register of `slot`, to be written with `target`.
    pub fn doorbell(&self, slot: u8, target: u8) -> (result: Result<(u64, u32), UsbError>)
        requires
            self.doorbells <= u32::MAX,
        ensures
            result == (if slot > self.max_slots || target > 31 {
                Err(UsbError::InvalidEndpoint)
            } else {
                Ok(((self.doorbells + slot * 4) as u64, target as u32))
            }),
    {
        if slot > self.max_slots || target > 31 {
            return Err(UsbError::InvalidEndpoint);
        }
        Ok((self.doorbells + slot as u64 * 4, target as u32))
    }
}

/// A valid layout keeps every root port and doorbell register inside the window.
pub proof fn law_port_and_doorbell_registers_fit(layout: XhciLayout, window: int, port: u8, slot: u8)
    requires
        registers_fit(layout, window),
        1 <= port <= layout.max_ports,
        slot <= layout.max_slots,
    ensures
        in_window(layout.operational + 0x400 + (port - 1) * 0x10, 4, window),
        in_window(layout.doorbells + slot * 4, 4, window),
{
}

/// Points the device context array at the context of `slot`.
pub fn set_dcbaa_entry(dcbaa: &mut DmaPage, max_slots: u8, slot: u8, value: u64) -> (result: Result<
    (),
    UsbError,
>)
    requires
        old(dcbaa).wf(),
    ensures
        final(dcbaa).wf(),
        if slot == 0 || slot > max_slots {
            result == Err::<(), UsbError>(UsbError::InvalidSlot) && *final(dcbaa) == *old(dcbaa)
        } else {
            result == Ok::<(), UsbError>(()) && final(dcbaa).extends(
                *old(dcbaa),
                seq![PageWrite::Double { offset: (8 * slot) as usize, wide: value }],
            )
        },
{
    if slot == 0 || slot > max_slots {
        return Err(UsbError::InvalidSlot);
    }
    dcbaa.write_u64(slot as usize * 8, value)
}

/// The number of scratchpad pages that the controller asks for.
pub open spec fn scratchpads_spec(hcsparams2: int) -> int {
    hcsparams2 / 0x20_0000 % 32 * 32 + hcsparams2 / 0x800_0000 % 32
}

/// The number of scratchpad pages that the controller asks for.
pub fn scratchpad_count(hcsparams2: u32) -> (result: Result<u32, UsbError>)
    ensures
        result == (if scratchpads_spec(hcsparams2 as int) > MAX_SCRATCHPADS {
            Err(UsbError::InvalidCapability)
        } else {
            Ok(scratchpads_spec(hcsparams2 as int) as u32)
        }),
{
    let count: u32 = hcsparams2 / 0x20_0000 % 32 * 32 + hcsparams2 / 0x800_0000 % 32;
    if count > MAX_SCRATCHPADS {
        return Err(UsbError::InvalidCapability);
    }
    Ok(count)
}

/// The controller must support pages of four kibibytes.
pub fn check_page_size(register: u32) -> (result: Result<(), UsbError>)
    ensures
        result == (if register % 2 == 0 {
            Err(UsbError::UnsupportedPageSize)
        } else {
            Ok(())
        }),
{
    if register % 2 == 0 {
        return Err(UsbError::UnsupportedPageSize);
    }
    Ok(())
}

/// One step of bringing the controller up.
#[derive(Clone, Copy, Debug, PartialEq, Eq, Structural)]
pub enum RegisterStep {
    /// Store a word.
    Write { offset: u64, value: u32 },
    /// Store a double word as two words, low first.
    WriteWide { offset: u64, wide: u64 },
    /// Wait until the bits of `mask` are set or clear.
    Wait { offset: u64, mask: u32, set: bool },
    /// As `Wait`, but go on after the deadline too.
    Settle { offset: u64, mask: u32, set: bool },
}

/// The steps that halt and reset a controller whose command register holds `command`.
pub open spec fn reset_steps_spec(operational: u64, command: u32) -> Seq<RegisterStep> {
    let halted = (command - command % 2) as u32;
    seq![
        RegisterStep::Write { offset: operational, value: halted },
        RegisterStep::Wait {
            offset: (operational + 4) as u64,
            mask: USBSTS_HOST_CONTROLLER_HALTED,
            set: true,
        },
        RegisterStep::Write {
            offset: operational,
            value: halted | USBCMD_HOST_CONTROLLER_RESET,
        },
        RegisterStep::Wait { offset: operational, mask: USBCMD_HOST_CONTROLLER_RESET, set: false },
        RegisterStep::Wait {
            offset: (operational + 4) as u64,
            mask: USBSTS_CONTROLLER_NOT_READY,
            set: false,
        },
    ]
}

/// The steps that halt and reset the controller.
pub fn reset_steps(operational: u64, command: u32) -> (steps: Vec<RegisterStep>)
    requires
        operational <= 0xff,
    ensures
        steps@ == reset_steps_spec(operational, command),
{
    let halted: u32 = command - command % 2;
    let mut steps: Vec<RegisterStep> = Vec::new();
    steps.push(RegisterStep::Write { offset: operational, value: halted });
    steps.push(
        RegisterStep::Wait {
            offset: operational + 4,
            mask: USBSTS_HOST_CONTROLLER_HALTED,
            set: true,
        },
    );
    steps.push(
        RegisterStep::Write { offset: operational, value: halted | USBCMD_HOST_CONTROLLER_RESET },
    );
    steps.push(
        RegisterStep::Wait { offset: operational, mask: USBCMD_HOST_CONTROLLER_RESET, set: false },
    );
    steps.push(
        RegisterStep::Wait {
            offset: operational + 4,
            mask: USBSTS_CONTROLLER_NOT_READY,
            set: false,
        },
    );
    assert(steps@ =~= reset_steps_spec(operational, command));
    steps
}

/// The addresses of the tables that the controller is given.
#[derive(Clone, Copy, Debug, PartialEq, Eq)]
pub struct ControllerTables {
    pub dcbaa: u64,
    pub command_ring: u64,
    pub event_ring: u64,
    pub event_segments: u64,
}

/// The steps that give the controller its tables.
pub open spec fn program_steps_spec(layout: XhciLayout, tables: ControllerTables) -> Seq<
    RegisterStep,
> {
    let interrupter = (layout.runtime + 0x20) as int;
    seq![
        RegisterStep::WriteWide {
            offset: (layout.operational + 0x30) as u64,
            wide: tables.dcbaa,
        },
        RegisterStep::WriteWide {
            offset: (layout.operational + 0x18) as u64,
            wide: tables.command_ring | 1,
        },
        RegisterStep::Write {
            offset: (layout.operational + 0x38) as u64,
            value: layout.max_slots as u32,
        },
        RegisterStep::Write { offset: interrupter as u64, value: 1 },
        RegisterStep::Write { offset: (interrupter + 0x08) as u64, value: 1 },
        RegisterStep::WriteWide {
            offset: (interrupter + 0x10) as u64,
            wide: tables.event_segments,
        },
        RegisterStep::WriteWide { offset: (interrupter + 0x18) as u64, wide: tables.event_ring },
    ]
}

/// The steps that give the controller its tables.
pub fn program_steps(layout: XhciLayout, tables: ControllerTables) -> (steps: Vec<RegisterStep>)
    requires
        layout.operational <= 0xff,
        layout.runtime <= u32::MAX,
    ensures
        steps@ == program_steps_spec(layout, tables),
{
    let interrupter: u64 = layout.runtime + 0x20;
    let mut steps: Vec<RegisterStep> = Vec::new();
    steps.push(RegisterStep::WriteWide { offset: layout.operational + 0x30, wide: tables.dcbaa });
    steps.push(
        RegisterStep::WriteWide {
            offset: layout.operational + 0x18,
            wide: tables.command_ring | 1,
        },
    );
    steps.push(
        RegisterStep::Write {
            offset: layout.operational + 0x38,
            value: layout.max_slots as u32,
        },
    );
    steps.push(RegisterStep::Write { offset: interrupter, value: 1 });
    steps.push(RegisterStep::Write { offset: interrupter + 0x08, value: 1 });
    steps.push(
        RegisterStep::WriteWide { offset: interrupter + 0x10, wide: tables.event_segments },
    );
    steps.push(RegisterStep::WriteWide { offset: interrupter + 0x18, wide: tables.event_ring });
    assert(steps@ =~= program_steps_spec(layout, tables));
    steps
}

/// The steps that start a controller whose command register holds `command`.
///
/// The global interrupt enable stays clear until interrupts are configured.
pub open spec fn start_steps_spec(operational: u64, command: u32) -> Seq<RegisterStep> {
    seq![
        RegisterStep::Write {
            offset: operational,
            value: (command & !USBCMD_INTERRUPTER_ENABLE) | USBCMD_RUN_STOP,
        },
        RegisterStep::Wait {
            offset: (operational + 4) as u64,
            mask: USBSTS_HOST_CONTROLLER_HALTED,
            set: false,
        },
    ]
}

/// The steps that start the controller.
pub fn start_steps(operational: u64, command: u32) -> (steps: Vec<RegisterStep>)
    requires
        operational <= 0xff,
    ensures
        steps@ == start_steps_spec(operational, command),
{
    let mut steps: Vec<RegisterStep> = Vec::new();
    steps.push(
        RegisterStep::Write {
            offset: operational,
            value: (command & !USBCMD_INTERRUPTER_ENABLE) | USBCMD_RUN_STOP,
        },
    );
    steps.push(
        RegisterStep::Wait {
            offset: operational + 4,
            mask: USBSTS_HOST_CONTROLLER_HALTED,
            set: false,
        },
    );
    assert(steps@ =~= start_steps_spec(operational, command));
    steps
}

/// A started controller runs and raises no interrupt.
pub proof fn law_start_runs_without_interrupts(command: u32)
    ensures
        ((command & !USBCMD_INTERRUPTER_ENABLE) | USBCMD_RUN_STOP) & USBCMD_RUN_STOP != 0,
        ((command & !USBCMD_INTERRUPTER_ENABLE) | USBCMD_RUN_STOP) & USBCMD_INTERRUPTER_ENABLE == 0,
{
    assert(((command & !4u32) | 1u32) & 1u32 != 0) by (bit_vector);
    assert(((command & !4u32) | 1u32) & 4u32 == 0) by (bit_vector);
}

/// The stores that describe one segment of 256 blocks.
pub open spec fn segment_writes(event_ring: u64) -> Seq<PageWrite> {
    seq![
        PageWrite::Double { offset: 0, wide: event_ring },
        PageWrite::Word { offset: 8, value: 256 },
        PageWrite::Word { offset: 12, value: 0 },
    ]
}

/// Fills the segment table of the event ring: one segment of 256 blocks.
pub fn fill_segment_table(table: &mut DmaPage, event_ring: u64)
    requires
        old(table).wf(),
    ensures
        final(table).wf(),
        final(table).extends(*old(table), segment_writes(event_ring)),
        final(table).words@ == old(table).words@.update(
            0,
            (event_ring as int % 0x1_0000_0000) as u32,
        ).update(1, (event_ring as int / 0x1_0000_0000) as u32).update(2, 256).update(3, 0),
{
    let ghost before = *table;
    let ghost first = seq![PageWrite::Double { offset: 0, wide: event_ring }];
    let ghost second = seq![PageWrite::Word { offset: 8, value: 256 }];
    let ghost third = seq![PageWrite::Word { offset: 12, value: 0 }];
    proof {
        super::page::lemma_one_write(table.words@, first[0]);
    }
    let _address = table.write_u64(0, event_ring);
    let ghost addressed = *table;
    proof {
        super::page::lemma_one_write(table.words@, second[0]);
    }
    let _size = table.write_u32(8, 256);
    let ghost sized = *table;
    proof {
        super::page::lemma_one_write(table.words@, third[0]);
    }
    let _reserved = table.write_u32(12, 0);
    proof {
        lemma_extends_trans(before, addressed, sized, first, second);
        lemma_extends_trans(before, sized, *table, first + second, third);
        assert(first + second + third =~= segment_writes(event_ring));
    }
}

/// Enters a scratchpad page into the scratchpad array.
pub fn set_scratchpad(array: &mut DmaPage, index: u32, page: u64)
    requires
        old(array).wf(),
        index < MAX_SCRATCHPADS,
    ensures
        final(array).wf(),
        final(array).extends(
            *old(array),
            seq![PageWrite::Double { offset: (8 * index) as usize, wide: page }],
        ),
{
    let _entry = array.write_u64(index as usize * 8, page);
}

/// Fails when the controller has halted or reported an error.
pub fn check_running(status: u32) -> (result: Result<(), UsbError>)
    ensures
        result == (if status & (USBSTS_HOST_CONTROLLER_HALTED | USBSTS_HOST_SYSTEM_ERROR
            | USBSTS_HOST_CONTROLLER_ERROR) != 0 {
            Err(UsbError::ControllerError)
        } else {
            Ok(())
        }),
{
    if status & (USBSTS_HOST_CONTROLLER_HALTED | USBSTS_HOST_SYSTEM_ERROR
        | USBSTS_HOST_CONTROLLER_ERROR) != 0 {
        return Err(UsbError::ControllerError);
    }
    Ok(())
}

/// The interrupter management value that clears a pending interrupt.
pub fn iman_write_value(interrupt_enable: bool) -> (value: u32)
    ensures
        value == (if interrupt_enable {
            3u32
        } else {
            1u32
        }),
{
    if interrupt_enable {
        3
    } else {
        1
    }
}

/// What an extended capability is.
#[derive(Clone, Copy, Debug, PartialEq, Eq)]
pub enum CapabilityKind {
    /// Firmware ownership: write `claim`, and wait for the firmware when it still owns.
    Legacy { claim: u32, firmware_owns: bool },
    /// The ports of one protocol.
    Protocol,
    Other,
}

/// Classifies the extended capability with header `header`.
pub fn capability_kind(header: u32) -> (kind: CapabilityKind)
    ensures
        kind == (if header % 256 == 1 {
            CapabilityKind::Legacy {
                claim: header | (1u32 << 24),
                firmware_owns: header as int / 0x1_0000 % 2 == 1,
            }
        } else if header % 256 == 2 {
            CapabilityKind::Protocol
        } else {
            CapabilityKind::Other
        }),
{
    match header % 256 {
        1 => CapabilityKind::Legacy {
            claim: header | (1u32 << 24),
            firmware_owns: header / 0x1_0000 % 2 == 1,
        },
        2 => CapabilityKind::Protocol,
        _ => CapabilityKind::Other,
    }
}

/// A walk over the extended capability list.
#[derive(Clone, Copy, Debug, PartialEq, Eq)]
pub struct CapabilityWalk {
    /// Offset of the capability to visit, zero at the end of the list.
    pub offset: u64,
    /// Capabilities visited before it.
    pub visited: usize,
}

impl CapabilityWalk {
    pub open spec fn wf(&self) -> bool {
        &&& self.visited <= MAX_EXTENDED_CAPABILITIES
        &&& self.offset <= 0x3_fffc + self.visited * 1020
    }

    /// Starts at the first capability.
    pub fn new(hccparams1: u32) -> (walk: Self)
        ensures
            walk.wf(),
            walk == (CapabilityWalk {
                offset: (hccparams1 as int / 0x1_0000 * 4) as u64,
                visited: 0,
            }),
    {
        CapabilityWalk { offset: (hccparams1 / 0x1_0000) as u64 * 4, visited: 0 }
    }

    /// The capability to visit next; `None` at the end of the list.
    ///
    /// A list that is longer than the driver follows is refused.
    pub fn current(&self) -> (result: Result<Option<u64>, UsbError>)
        ensures
            result == (if self.offset == 0 {
                Ok(None)
            } else if self.visited >= MAX_EXTENDED_CAPABILITIES {
                Err(UsbError::InvalidCapability)
            } else {
                Ok(Some(self.offset))
            }),
    {
        if self.offset == 0 {
            return Ok(None);
        }
        if self.visited >= MAX_EXTENDED_CAPABILITIES {
            return Err(UsbError::InvalidCapability);
        }
        Ok(Some(self.offset))
    }

    /// Steps over the capability with header `header`.
    pub fn advance(&mut self, header: u32)
        requires
            old(self).wf(),
            old(self).visited < MAX_EXTENDED_CAPABILITIES,
        ensures
            final(self).wf(),
            final(self).visited == old(self).visited + 1,
            final(self).offset == (if header as int / 0x100 % 256 == 0 {
                0
            } else {
                old(self).offset + header as int / 0x100 % 256 * 4
            }),
    {
        let next: u64 = (header / 0x100 % 256) as u64 * 4;
        self.visited += 1;
        self.offset = if next == 0 {
            0
        } else {
            self.offset + next
        };
    }
}

/// Port `port` belongs to the protocol whose port word is `ports`.
pub open spec fn protocol_covers(ports: int, max_ports: int, port: int) -> bool {
    let first = ports % 256;
    let count = ports / 0x100 % 256;
    first <= port < (if first + count < 255 {
        first + count
    } else {
        255
    }) && 1 <= port <= max_ports
}

/// Records the slot type of every port of one protocol.
pub fn assign_slot_types(types: &mut Vec<u8>, ports: u32, slot_word: u32, max_ports: u8)
    requires
        old(types)@.len() == max_ports,
    ensures
        final(types)@ == Seq::new(
            max_ports as nat,
            |i: int|
                if protocol_covers(ports as int, max_ports as int, i + 1) {
                    (slot_word as int % 32) as u8
                } else {
                    old(types)@[i]
                },
        ),
{
    let slot_type: u8 = (slot_word % 32) as u8;
    let first: u32 = ports % 256;
    let count: u32 = ports / 0x100 % 256;
    let end: u32 = if first + count < 255 {
        first + count
    } else {
        255
    };
    let mut port: u32 = first;
    while port < end
        invariant
            first == ports % 256,
            end <= 255,
            first <= port,
            port <= end || end < first,
            types@.len() == max_ports,
            forall|i: int|
                0 <= i < max_ports ==> #[trigger] types@[i] == (if first <= i + 1 < port {
                    slot_type
                } else {
                    old(types)@[i]
                }),
        decreases end - port,
    {
        if port != 0 && port <= max_ports as u32 {
            types.set((port - 1) as usize, slot_type);
        }
        port += 1;
    }
    assert(types@ =~= Seq::new(
        max_ports as nat,
        |i: int|
            if protocol_covers(ports as int, max_ports as int, i + 1) {
                (slot_word as int % 32) as u8
            } else {
                old(types)@[i]
            },
    ));
}

/// A command block that names `slot` and an input context.
pub open spec fn slot_command(trb_type: u32, parameter: u64, slot: u8) -> Trb {
    Trb {
        parameter,
        status: 0,
        control: (trb_control_spec(trb_type as int) + 0x100_0000 * slot) as u32,
    }
}

/// The command that enables a slot of type `slot_type`.
pub open spec fn enable_slot_spec(slot_type: u8) -> Trb {
    Trb {
        parameter: 0,
        status: 0,
        control: (trb_control_spec(TRB_TYPE_ENABLE_SLOT_COMMAND as int) + slot_type as int % 32
            * 0x1_0000) as u32,
    }
}

/// The command that enables a slot of type `slot_type`.
pub fn enable_slot_command(slot_type: u8) -> (trb: Trb)
    ensures
        trb == enable_slot_spec(slot_type),
{
    Trb::new(
        0,
        0,
        trb_control(TRB_TYPE_ENABLE_SLOT_COMMAND) + (slot_type % 32) as u32 * 0x1_0000,
    )
}

/// The command that disables `slot`.
pub fn disable_slot_command(slot: u8) -> (trb: Trb)
    ensures
        trb == slot_command(TRB_TYPE_DISABLE_SLOT_COMMAND, 0, slot),
{
    Trb::new(0, 0, trb_control(TRB_TYPE_DISABLE_SLOT_COMMAND) + slot as u32 * 0x100_0000)
}

/// The command that addresses the device in `slot`.
pub fn address_device_command(slot: u8, input_context: u64) -> (trb: Trb)
    ensures
        trb == slot_command(TRB_TYPE_ADDRESS_DEVICE_COMMAND, input_context, slot),
{
    Trb::new(
        input_context,
        0,
        trb_control(TRB_TYPE_ADDRESS_DEVICE_COMMAND) + slot as u32 * 0x100_0000,
    )
}

/// The command that re-evaluates the contexts of `slot`.
pub fn evaluate_context_command(slot: u8, input_context: u64) -> (trb: Trb)
    ensures
        trb == slot_command(TRB_TYPE_EVALUATE_CONTEXT_COMMAND, input_context, slot),
{
    Trb::new(
        input_context,
        0,
        trb_control(TRB_TYPE_EVALUATE_CONTEXT_COMMAND) + slot as u32 * 0x100_0000,
    )
}

/// The command that configures the endpoints of `slot`.
pub fn configure_endpoint_command(slot: u8, input_context: u64) -> (trb: Trb)
    ensures
        trb == slot_command(TRB_TYPE_CONFIGURE_ENDPOINT_COMMAND, input_context, slot),
{
    Trb::new(
        input_context,
        0,
        trb_control(TRB_TYPE_CONFIGURE_ENDPOINT_COMMAND) + slot as u32 * 0x100_0000,
    )
}

/// What an event means to someone who waits for a command.
#[derive(Clone, Copy, Debug, PartialEq, Eq)]
pub enum CommandEvent {
    /// The event is another's: keep it for later.
    Defer,
    /// The command completed; the event names the slot.
    Complete(u8),
    /// The command failed with this completion code.
    Failed(u8),
}

/// Matches an event with the command block at `pointer`.
pub fn command_event(pointer: u64, event: Trb) -> (outcome: CommandEvent)
    ensures
        outcome == (if event.type_spec() != TRB_TYPE_COMMAND_COMPLETION_EVENT
            || event.pointer_spec() != pointer as int - pointer as int % 16 {
            CommandEvent::Defer
        } else if event.completion_spec() != COMPLETION_SUCCESS {
            CommandEvent::Failed(event.completion_spec() as u8)
        } else {
            CommandEvent::Complete(event.slot_spec() as u8)
        }),
{
    if event.trb_type() != TRB_TYPE_COMMAND_COMPLETION_EVENT || event.pointer() != pointer - pointer
        % 16 {
        return CommandEvent::Defer;
    }
    let completion: u8 = event.completion_code();
    if completion != COMPLETION_SUCCESS {
        return CommandEvent::Failed(completion);
    }
    CommandEvent::Complete(event.slot_id())
}

/// Whether an enabled slot can be used, and whether it must be disabled again.
#[derive(Clone, Copy, Debug, PartialEq, Eq)]
pub enum SlotGrant {
    Usable,
    /// No slot was granted.
    Missing,
    /// The slot is beyond those that the driver asked for.
    OutOfRange,
}

/// Judges the slot that an Enable Slot command returned.
pub fn judge_slot(slot: u8, max_slots: u8) -> (grant: SlotGrant)
    ensures
        grant == (if slot == 0 {
            SlotGrant::Missing
        } else if slot > max_slots {
            SlotGrant::OutOfRange
        } else {
            SlotGrant::Usable
        }),
{
    if slot == 0 {
        SlotGrant::Missing
    } else if slot > max_slots {
        SlotGrant::OutOfRange
    } else {
        SlotGrant::Usable
    }
}

/// `std::collections::VecDeque::try_reserve`: asks for room for one more event.
///
/// Claims that the queue keeps its contents, whether or not memory was found.
#[verifier::external_body]
fn try_reserve_event(queue: &mut VecDeque<Trb>) -> (reserved: bool)
    ensures
        final(queue)@ == old(queue)@,
{
    queue.try_reserve(1).is_ok()
}

/// Makes sure that one more event can be deferred without allocating.
///
/// Only a failed allocation makes it fail, and the queued events stay either way.
pub fn reserve_lossless_slot(queue: &mut VecDeque<Trb>) -> (result: Result<(), UsbError>)
    ensures
        final(queue)@ == old(queue)@,
        result matches Err(error) ==> error == UsbError::RingFull,
{
    if try_reserve_event(queue) {
        Ok(())
    } else {
        Err(UsbError::RingFull)
    }
}

/// Keeps an event for later, behind those that were kept before.
pub fn defer_lossless(queue: &mut VecDeque<Trb>, event: Trb)
    ensures
        final(queue)@ == old(queue)@.push(event),
{
    queue.push_back(event);
}

/// Takes the event that was kept first.
pub fn next_deferred(queue: &mut VecDeque<Trb>) -> (event: Option<Trb>)
    ensures
        event == (if old(queue)@.len() > 0 {
            Some(old(queue)@[0])
        } else {
            None
        }),
        final(queue)@ == (if old(queue)@.len() > 0 {
            old(queue)@.skip(1)
        } else {
            old(queue)@
        }),
{
    let taken: Option<Trb> = queue.pop_front();
    proof {
        if old(queue)@.len() > 0 {
            assert(queue@ =~= old(queue)@.skip(1));
        }
    }
    taken
}

/// Appends to a bounded queue, dropping the oldest entry of a full one.
pub fn push_bounded<T>(queue: &mut VecDeque<T>, capacity: usize, value: T) -> (dropped: bool)
    ensures
        dropped == (old(queue)@.len() == capacity),
        final(queue)@ == {
            let kept = if old(queue)@.len() == capacity && capacity > 0 {
                old(queue)@.skip(1)
            } else {
                old(queue)@
            };
            if capacity == 0 {
                kept
            } else {
                kept.push(value)
            }
        },
{
    let dropped: bool = queue.len() == capacity;
    if dropped {
        let _oldest = queue.pop_front();
        proof {
            if capacity > 0 {
                assert(queue@ =~= old(queue)@.skip(1));
            }
        }
    }
    if capacity != 0 {
        queue.push_back(value);
    }
    dropped
}

/// The frequency of the time-stamp counter.
#[derive(Clone, Copy, Debug, PartialEq, Eq)]
pub struct TimestampClock {
    pub frequency: u64,
}

/// The processor leaves that describe the time-stamp counter.
#[derive(Clone, Copy, Debug, PartialEq, Eq)]
pub struct CpuidFrequency {
    pub maximum_leaf: u32,
    pub ratio_denominator: u32,
    pub ratio_numerator: u32,
    pub crystal_hz: u32,
    pub processor_mhz: u32,
}

/// The frequency that the processor leaves give.
pub open spec fn detected_frequency(cpu: CpuidFrequency) -> Option<u64> {
    if cpu.maximum_leaf >= 0x15 && cpu.ratio_denominator != 0 && cpu.ratio_numerator != 0
        && cpu.crystal_hz != 0 {
        let frequency = cpu.crystal_hz * cpu.ratio_numerator / cpu.ratio_denominator as int;
        if frequency != 0 {
            Some(frequency as u64)
        } else {
            None
        }
    } else if cpu.maximum_leaf >= 0x16 && cpu.processor_mhz != 0 {
        Some((cpu.processor_mhz * 1_000_000) as u64)
    } else {
        None
    }
}

/// Derives the counter frequency from the processor leaves.
pub fn detect_timestamp_frequency(cpu: CpuidFrequency) -> (frequency: Option<u64>)
    ensures
        frequency == detected_frequency(cpu),
{
    if cpu.maximum_leaf >= 0x15 {
        if cpu.ratio_denominator != 0 && cpu.ratio_numerator != 0 && cpu.crystal_hz != 0 {
            assert(cpu.crystal_hz * cpu.ratio_numerator <= 0xffff_ffff * 0xffff_ffff)
                by (nonlinear_arith)
                requires
                    cpu.crystal_hz <= 0xffff_ffff,
                    cpu.ratio_numerator <= 0xffff_ffff,
            ;
            let product: u64 = cpu.crystal_hz as u64 * cpu.ratio_numerator as u64;
            let frequency: u64 = product / cpu.ratio_denominator as u64;
            return if frequency != 0 {
                Some(frequency)
            } else {
                None
            };
        }
    }
    if cpu.maximum_leaf >= 0x16 {
        if cpu.processor_mhz != 0 {
            return Some(cpu.processor_mhz as u64 * 1_000_000);
        }
    }
    None
}

/// Calibrates the clock: a reported frequency wins over the processor leaves.
pub fn configure_timestamp_frequency(
    clock: &mut TimestampClock,
    reported_frequency: Option<u64>,
    cpu: CpuidFrequency,
)
    ensures
        final(clock).frequency == (match reported_frequency {
            Some(frequency) if frequency != 0 => frequency,
            _ => match detected_frequency(cpu) {
                Some(frequency) => frequency,
                None => FALLBACK_TSC_FREQUENCY,
            },
        }),
{
    clock.frequency = match reported_frequency {
        Some(frequency) if frequency != 0 => frequency,
        _ => match detect_timestamp_frequency(cpu) {
            Some(frequency) => frequency,
            None => FALLBACK_TSC_FREQUENCY,
        },
    };
}

/// The frequency of the time-stamp counter in hertz.
pub fn timestamp_frequency(clock: &TimestampClock) -> (frequency: u64)
    ensures
        frequency == clock.frequency,
{
    clock.frequency
}

/// `a * b`, or the largest value when that does not fit.
pub open spec fn saturating_product(a: int, b: int) -> int {
    if a * b > u64::MAX {
        u64::MAX as int
    } else {
        a * b
    }
}

/// `a + b`, or the largest value when that does not fit.
pub open spec fn saturating_sum(a: int, b: int) -> int {
    if a + b > u64::MAX {
        u64::MAX as int
    } else {
        a + b
    }
}

/// Multiplies without overflow.
fn multiply_saturating(a: u64, b: u64) -> (product: u64)
    ensures
        product == saturating_product(a as int, b as int),
{
    match a.checked_mul(b) {
        Some(product) => product,
        None => u64::MAX,
    }
}

/// When a controller operation that starts at `now` has taken too long.
pub fn wait_deadline(clock: &TimestampClock, now: u64) -> (deadline: u64)
    ensures
        deadline == saturating_sum(
            now as int,
            saturating_product(clock.frequency as int, WAIT_SECONDS as int),
        ),
{
    now.saturating_add(multiply_saturating(clock.frequency, WAIT_SECONDS))
}

/// When hub ports that were powered at `now` are good after `milliseconds`.
pub fn power_good_deadline(clock: &TimestampClock, now: u64, milliseconds: u16) -> (deadline: u64)
    ensures
        deadline == saturating_sum(
            now as int,
            saturating_product(clock.frequency as int, milliseconds as int) / 1000,
        ),
{
    now.saturating_add(multiply_saturating(clock.frequency, milliseconds as u64) / 1000)
}

/// The pages that a register window of `size` bytes at `address` covers.
#[derive(Clone, Copy, Debug, PartialEq, Eq)]
pub struct WindowMapping {
    /// Address of the first page.
    pub physical_page: u64,
    /// Offset of the window in the first page.
    pub page_offset: u64,
    /// Bytes to map, a multiple of the page size.
    pub mapped_length: u64,
}

/// Plans the mapping of a register window.
pub fn plan_window(address: u64, size: u64) -> (result: Result<WindowMapping, UsbError>)
    ensures
        result == (if size == 0 || size > MAX_MMIO_SIZE {
            Err(UsbError::InvalidMmioBar)
        } else {
            Ok(
                WindowMapping {
                    physical_page: (address - address % 4096) as u64,
                    page_offset: address % 4096,
                    mapped_length: ((address % 4096 + size + 4095) / 4096 * 4096) as u64,
                },
            )
        }),
        result matches Ok(plan) ==> {
            &&& plan.page_offset + size <= plan.mapped_length
            &&& plan.mapped_length % 4096 == 0
            &&& plan.mapped_length < plan.page_offset + size + 4096
        },
{
    if size == 0 || size > MAX_MMIO_SIZE {
        return Err(UsbError::InvalidMmioBar);
    }
    let page_offset: u64 = address % 4096;
    Ok(
        WindowMapping {
            physical_page: address - page_offset,
            page_offset,
            mapped_length: (page_offset + size + 4095) / 4096 * 4096,
        },
    )
}

} // verus!
