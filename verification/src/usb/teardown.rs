//! Taking devices down, and slots that could not be given back at once.
//!
//! The caller sends each command and hands back what came of it.
use vstd::prelude::*;

use super::controller::{disable_slot_command, set_dcbaa_entry, slot_command};
use super::device::UsbDevice;
use super::error::UsbError;
use super::host::UsbHost;
use super::page::DmaPage;
use super::path::{is_teardown_order, UsbPath};
use super::ring::{Trb, TRB_TYPE_DISABLE_SLOT_COMMAND};
use super::slot::entry_cleared;

verus! {

/// A subtree that is being taken down.
#[derive(Debug)]
pub struct Teardown {
    /// The slots to give back, in this order.
    pub slots: Vec<u8>,
    pub next: usize,
}

/// A device sits in `slot`.
pub open spec fn has_slot<P>(host: UsbHost<P>, slot: u8) -> bool {
    exists|index: int| #[trigger] host.first_in_slot(slot, index)
}

/// The command for the first slot from `from` on that still has a device, if there is one.
pub open spec fn next_teardown<P>(
    host: UsbHost<P>,
    after: Teardown,
    from: int,
    command: Option<Trb>,
) -> bool {
    &&& from <= after.next <= after.slots@.len()
    &&& forall|i: int|
        from <= i < after.next ==> !has_slot(host, #[trigger] after.slots@[i])
    &&& if after.next < after.slots@.len() {
        let slot = after.slots@[after.next as int];
        &&& has_slot(host, slot)
        &&& command == Some(slot_command(TRB_TYPE_DISABLE_SLOT_COMMAND, 0, slot))
    } else {
        command is None
    }
}

/// The slot of the device at `index` was given back, so the device is forgotten.
///
/// A slot that the device context array has no entry for is kept as a failure.
pub open spec fn slot_released<P>(
    hosts: (UsbHost<P>, UsbHost<P>),
    tables: (DmaPage, DmaPage),
    index: int,
    noted: UsbHost<P>,
) -> bool {
    let device = hosts.0.devices@[index];
    let max_slots = hosts.0.layout.max_slots;
    &&& entry_cleared(tables, max_slots, device.slot_id)
    &&& if device.slot_id == 0 || device.slot_id > max_slots {
        noted.noted(hosts.0, device.path, UsbError::InvalidSlot)
    } else {
        noted == hosts.0
    }
    &&& hosts.1.forgot(noted, index)
}

/// What the answer to a command leads to while a subtree is taken down.
pub open spec fn teardown_post<P>(
    before: Teardown,
    after: Teardown,
    hosts: (UsbHost<P>, UsbHost<P>),
    tables: (DmaPage, DmaPage),
    result: Result<(), UsbError>,
    command: Option<Trb>,
) -> bool {
    &&& after.slots == before.slots
    &&& exists|index: int|
        {
            &&& #[trigger] hosts.0.first_in_slot(before.slots@[before.next as int], index)
            &&& match result {
                Err(error) => {
                    &&& hosts.1.noted(hosts.0, hosts.0.devices@[index].path, error)
                    &&& tables.1 == tables.0
                    &&& after.next == after.slots@.len()
                    &&& command is None
                },
                Ok(()) => {
                    &&& exists|noted: UsbHost<P>| #[trigger]
                        slot_released(hosts, tables, index, noted)
                    &&& next_teardown(hosts.1, after, before.next + 1, command)
                },
            }
        }
}

impl Teardown {
    /// The slot that is being given back has a device.
    pub open spec fn wf<P>(&self, host: UsbHost<P>) -> bool {
        &&& self.next <= self.slots@.len()
        &&& self.next < self.slots@.len() ==> has_slot(host, self.slots@[self.next as int])
    }

    fn advance<P>(&mut self, host: &UsbHost<P>) -> (command: Option<Trb>)
        requires
            old(self).next <= old(self).slots@.len(),
        ensures
            final(self).slots == old(self).slots,
            next_teardown(*host, *final(self), old(self).next as int, command),
            final(self).wf(*host),
    {
        while self.next < self.slots.len()
            invariant
                self.slots == old(self).slots,
                old(self).next <= self.next <= self.slots@.len(),
                forall|i: int|
                    old(self).next <= i < self.next ==> !has_slot(
                        *host,
                        #[trigger] self.slots@[i],
                    ),
            decreases self.slots@.len() - self.next,
        {
            let slot: u8 = self.slots[self.next];
            if let Some(index) = host.device_in_slot(slot) {
                assert(host.first_in_slot(slot, index as int));
                return Some(disable_slot_command(slot));
            }
            self.next += 1;
        }
        None
    }

    /// Begins to take down what is at `path` and below it.
    pub fn new<P>(host: &UsbHost<P>, path: UsbPath) -> (result: (Teardown, Option<Trb>))
        requires
            path.depth < 8,
        ensures
            is_teardown_order(
                result.0.slots@,
                host.devices@.map_values(|d: UsbDevice| (d.path, d.slot_id)),
                path,
            ),
            next_teardown(*host, result.0, 0, result.1),
            result.0.wf(*host),
    {
        let mut teardown = Teardown { slots: host.teardown_order(path), next: 0 };
        let command: Option<Trb> = teardown.advance(host);
        (teardown, command)
    }

    /// Takes what came of the last command and gives the next one.
    ///
    /// Where a slot cannot be given back, the rest of the subtree stays.
    pub fn step<P>(
        &mut self,
        host: &mut UsbHost<P>,
        dcbaa: &mut DmaPage,
        result: Result<(), UsbError>,
    ) -> (command: Option<Trb>)
        requires
            old(host).wf(),
            old(dcbaa).wf(),
            old(self).wf(*old(host)),
            old(self).next < old(self).slots@.len(),
        ensures
            final(host).wf(),
            final(dcbaa).wf(),
            final(self).wf(*final(host)),
            teardown_post(
                *old(self),
                *final(self),
                (*old(host), *final(host)),
                (*old(dcbaa), *final(dcbaa)),
                result,
                command,
            ),
    {
        let slot: u8 = self.slots[self.next];
        let index: usize = match host.device_in_slot(slot) {
            Some(index) => index,
            None => 0,
        };
        assert(host.first_in_slot(slot, index as int));
        let path: UsbPath = host.devices[index].path;
        match result {
            Err(error) => {
                host.record_path_failure(path, error);
                self.next = self.slots.len();
                None
            },
            Ok(()) => {
                let ghost first = *host;
                match set_dcbaa_entry(dcbaa, host.layout.max_slots, slot, 0) {
                    Err(error) => {
                        host.record_path_failure(path, error);
                    },
                    Ok(()) => {},
                }
                let ghost noted = *host;
                host.remove_device(index);
                assert(slot_released((first, *host), (*old(dcbaa), *dcbaa), index as int, noted));
                assert(self.next < self.slots.len());
                self.next += 1;
                self.advance(host)
            },
        }
    }
}

/// What could not be given back, being tried again.
#[derive(Clone, Copy, Debug, PartialEq, Eq)]
pub struct Retry {
    /// Whether the devices have their turn, after the bare slots.
    pub devices: bool,
    pub index: usize,
}

/// The next command of a retry that has come as far as `at`.
pub open spec fn next_retry<P>(
    host: UsbHost<P>,
    at: Retry,
    after: Retry,
    command: Option<Trb>,
) -> bool {
    if !at.devices && at.index < host.quarantined_slots@.len() {
        &&& after == at
        &&& command == Some(
            slot_command(
                TRB_TYPE_DISABLE_SLOT_COMMAND,
                0,
                host.quarantined_slots@[at.index as int],
            ),
        )
    } else {
        let index = if at.devices {
            at.index
        } else {
            0
        };
        &&& after == (Retry { devices: true, index })
        &&& command == (if index < host.quarantined_devices@.len() {
            Some(
                slot_command(
                    TRB_TYPE_DISABLE_SLOT_COMMAND,
                    0,
                    host.quarantined_devices@[index as int].slot_id,
                ),
            )
        } else {
            None
        })
    }
}

/// What the answer to a command leads to on a retry.
pub open spec fn retry_post<P>(
    before: Retry,
    after: Retry,
    hosts: (UsbHost<P>, UsbHost<P>),
    tables: (DmaPage, DmaPage),
    disabled: bool,
    command: Option<Trb>,
) -> bool {
    let index = before.index as int;
    let max_slots = hosts.0.layout.max_slots;
    if !disabled {
        &&& hosts.1 == hosts.0 && tables.1 == tables.0
        &&& next_retry(
            hosts.0,
            Retry { index: (before.index + 1) as usize, ..before },
            after,
            command,
        )
    } else {
        &&& next_retry(hosts.1, before, after, command)
        &&& if before.devices {
            let device = hosts.0.quarantined_devices@[index];
            &&& entry_cleared(tables, max_slots, device.slot_id)
            &&& hosts.1.quarantined_devices@ == hosts.0.quarantined_devices@.remove(index)
            &&& hosts.1.dma_pool.pages@ == hosts.0.dma_pool.pages@ + device.pages()
            &&& hosts.1 == (UsbHost {
                quarantined_devices: hosts.1.quarantined_devices,
                dma_pool: hosts.1.dma_pool,
                ..hosts.0
            })
        } else {
            &&& entry_cleared(tables, max_slots, hosts.0.quarantined_slots@[index])
            &&& hosts.1.quarantined_slots@ == hosts.0.quarantined_slots@.remove(index)
            &&& hosts.1 == (UsbHost {
                quarantined_slots: hosts.1.quarantined_slots,
                ..hosts.0
            })
        }
    }
}

impl Retry {
    /// There is something to give back.
    pub open spec fn pending<P>(&self, host: UsbHost<P>) -> bool {
        if self.devices {
            self.index < host.quarantined_devices@.len()
        } else {
            self.index < host.quarantined_slots@.len()
        }
    }

    fn advance<P>(self, host: &UsbHost<P>) -> (result: (Retry, Option<Trb>))
        ensures
            next_retry(*host, self, result.0, result.1),
            result.1 is Some ==> result.0.pending(*host),
    {
        if !self.devices && self.index < host.quarantined_slots.len() {
            return (self, Some(disable_slot_command(host.quarantined_slots[self.index])));
        }
        let index: usize = if self.devices {
            self.index
        } else {
            0
        };
        let after = Retry { devices: true, index };
        if index < host.quarantined_devices.len() {
            return (after, Some(disable_slot_command(host.quarantined_devices[index].slot_id)));
        }
        (after, None)
    }

    /// Begins with the first slot that could not be given back.
    pub fn new<P>(host: &UsbHost<P>) -> (result: (Retry, Option<Trb>))
        ensures
            next_retry(*host, (Retry { devices: false, index: 0 }), result.0, result.1),
            result.1 is Some ==> result.0.pending(*host),
    {
        Retry { devices: false, index: 0 }.advance(host)
    }

    /// Takes whether the slot was given back and gives the next command.
    pub fn step<P>(self, host: &mut UsbHost<P>, dcbaa: &mut DmaPage, disabled: bool) -> (result: (
        Retry,
        Option<Trb>,
    ))
        requires
            old(host).wf(),
            old(dcbaa).wf(),
            self.pending(*old(host)),
        ensures
            final(host).wf(),
            final(dcbaa).wf(),
            retry_post(
                self,
                result.0,
                (*old(host), *final(host)),
                (*old(dcbaa), *final(dcbaa)),
                disabled,
                result.1,
            ),
            result.1 is Some ==> result.0.pending(*final(host)),
    {
        if !disabled {
            return Retry { devices: self.devices, index: self.index + 1 }.advance(host);
        }
        if self.devices {
            let slot: u8 = host.quarantined_devices[self.index].slot_id;
            let _cleared = set_dcbaa_entry(dcbaa, host.layout.max_slots, slot, 0);
            host.release_quarantined_device(self.index);
        } else {
            let slot: u8 = host.quarantined_slots[self.index];
            let _cleared = set_dcbaa_entry(dcbaa, host.layout.max_slots, slot, 0);
            host.release_quarantined_slot(self.index);
        }
        self.advance(host)
    }
}

/// What a retry gives back stays given back: it never adds to what is kept out of use, and a slot
/// that was disabled makes room for one device.
pub proof fn law_retries_make_room<P>(
    before: Retry,
    after: Retry,
    hosts: (UsbHost<P>, UsbHost<P>),
    tables: (DmaPage, DmaPage),
    disabled: bool,
    command: Option<Trb>,
)
    requires
        before.pending(hosts.0),
        retry_post(before, after, hosts, tables, disabled, command),
    ensures
        hosts.1.occupied() == (if disabled {
            hosts.0.occupied() - 1
        } else {
            hosts.0.occupied() as int
        }),
{
}

} // verus!
