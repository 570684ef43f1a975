//! Hubs: how a hub is described and how one of its ports is looked after.
//!
//! The caller performs each request and hands back what came of it.
use vstd::prelude::*;

use super::control::{
    acknowledging_features, clear_port_feature, get_port_status, hub_descriptor_minimum,
    hub_descriptor_request, hub_descriptor_retry, hub_reset_progress, hub_state, no_data_spec,
    pending_features, powered_hub, reads_hub, reset_progress, set_port_feature, status_request,
    ControlRequest, USB_PORT_FEATURE_POWER, USB_PORT_FEATURE_RESET, USB_REQUEST_CLEAR_FEATURE,
    USB_REQUEST_SET_FEATURE,
};
use super::controller::{
    power_good_deadline, saturating_product, saturating_sum, wait_deadline, TimestampClock,
    MAX_DEVICES, WAIT_SECONDS,
};
use super::descriptors::{
    has_bit, hub_descriptor_spec, hub_minimum, parse_hub_descriptor, parse_hub_port_status,
    DescriptorError, HubPortStatus, ParsedHubDescriptor, TtInfo, USB_PORT_STATUS_CONNECTION,
};
use super::device::{HubState, UsbDevice};
use super::error::UsbError;
use super::host::{child_tt_spec, port_action_spec, PortAction, UsbHost};
use super::path::{child_spec, UsbPath};
use crate::bytes::le16_at;

verus! {

/// What the description of a hub waits for.
#[derive(Clone, Copy, Debug, PartialEq, Eq, Structural)]
pub enum DescribePhase {
    /// The shortest hub descriptor.
    Short,
    /// The whole hub descriptor.
    Full,
    /// The acknowledgement that a port is powered.
    Power,
    /// The power of the ports to be good.
    Settle,
    /// Nothing: the description has ended.
    Ended,
}

/// What the caller has to do next to describe a hub.
#[derive(Clone, Copy, Debug, PartialEq, Eq)]
pub enum DescribeRequest {
    Control(ControlRequest),
    WaitUntil(u64),
    Finished(HubState),
    Failed(UsbError),
}

/// What came of a request to a hub.
#[derive(Debug)]
pub enum HubReply {
    Bytes(Vec<u8>),
    Done,
    Failed(UsbError),
}

/// A hub that is being described.
#[derive(Clone, Copy, Debug)]
pub struct HubDescription {
    pub phase: DescribePhase,
    pub superspeed: bool,
    pub protocol: u8,
    pub descriptor: ParsedHubDescriptor,
    /// The port that is being powered.
    pub port: u8,
}

/// The reply answers what a phase waits for.
pub open spec fn describe_reply_fits(phase: DescribePhase, reply: HubReply) -> bool {
    match reply {
        HubReply::Bytes(_) => phase == DescribePhase::Short || phase == DescribePhase::Full,
        HubReply::Done => phase == DescribePhase::Power || phase == DescribePhase::Settle,
        HubReply::Failed(_) => phase != DescribePhase::Ended,
    }
}

/// When the power of ports that were powered at `now` is good.
pub open spec fn good_at(clock: TimestampClock, now: u64, milliseconds: u16) -> u64 {
    saturating_sum(
        now as int,
        saturating_product(clock.frequency as int, milliseconds as int) / 1000,
    ) as u64
}

/// The description ended with an error.
pub open spec fn undescribed(
    before: HubDescription,
    after: HubDescription,
    error: UsbError,
    request: DescribeRequest,
) -> bool {
    &&& request == DescribeRequest::Failed(error)
    &&& after == (HubDescription { phase: DescribePhase::Ended, ..before })
}

/// A whole descriptor was read: its ports are powered, the first one first.
pub open spec fn described(
    before: HubDescription,
    after: HubDescription,
    bytes: Seq<u8>,
    request: DescribeRequest,
) -> bool {
    match hub_descriptor_spec(bytes, before.superspeed) {
        Err(error) => undescribed(before, after, UsbError::Descriptor(error), request),
        Ok(descriptor) => {
            &&& request == DescribeRequest::Control(
                no_data_spec(0x23, USB_REQUEST_SET_FEATURE, USB_PORT_FEATURE_POWER, 1),
            )
            &&& after == (HubDescription {
                phase: DescribePhase::Power,
                descriptor,
                port: 1,
                ..before
            })
        },
    }
}

/// What a reply leads to while a hub is described.
pub open spec fn describe_post(
    before: HubDescription,
    after: HubDescription,
    clock: TimestampClock,
    now: u64,
    reply: HubReply,
    request: DescribeRequest,
) -> bool {
    match reply {
        HubReply::Failed(error) => undescribed(before, after, error, request),
        HubReply::Bytes(bytes) => if before.phase == DescribePhase::Short && bytes@.len() > 0
            && bytes@[0] > bytes@.len() {
            &&& request == DescribeRequest::Control(
                reads_hub(before.superspeed, bytes@[0] as int),
            )
            &&& after == (HubDescription { phase: DescribePhase::Full, ..before })
        } else {
            described(before, after, bytes@, request)
        },
        HubReply::Done => if before.phase == DescribePhase::Settle {
            &&& request == DescribeRequest::Finished(
                powered_hub(before.descriptor, before.superspeed, before.protocol),
            )
            &&& after == (HubDescription { phase: DescribePhase::Ended, ..before })
        } else if before.port < before.descriptor.ports {
            let port = (before.port + 1) as u8;
            &&& request == DescribeRequest::Control(
                no_data_spec(0x23, USB_REQUEST_SET_FEATURE, USB_PORT_FEATURE_POWER, port as u16),
            )
            &&& after == (HubDescription { port, ..before })
        } else {
            &&& request == DescribeRequest::WaitUntil(
                good_at(clock, now, before.descriptor.power_good_ms),
            )
            &&& after == (HubDescription { phase: DescribePhase::Settle, ..before })
        },
    }
}

impl HubDescription {
    /// Begins with the shortest descriptor.
    pub fn new(superspeed: bool, protocol: u8) -> (result: (HubDescription, DescribeRequest))
        ensures
            result.0 == (HubDescription {
                phase: DescribePhase::Short,
                superspeed,
                protocol,
                descriptor: ParsedHubDescriptor { ports: 0, characteristics: 0, power_good_ms: 0 },
                port: 0,
            }),
            result.1 == DescribeRequest::Control(
                reads_hub(superspeed, hub_minimum(superspeed) as int),
            ),
    {
        let description = HubDescription {
            phase: DescribePhase::Short,
            superspeed,
            protocol,
            descriptor: ParsedHubDescriptor { ports: 0, characteristics: 0, power_good_ms: 0 },
            port: 0,
        };
        let request: ControlRequest = hub_descriptor_request(
            superspeed,
            hub_descriptor_minimum(superspeed),
        );
        (description, DescribeRequest::Control(request))
    }

    fn stop(&mut self, error: UsbError) -> (request: DescribeRequest)
        ensures
            undescribed(*old(self), *final(self), error, request),
    {
        self.phase = DescribePhase::Ended;
        DescribeRequest::Failed(error)
    }

    fn on_bytes(&mut self, bytes: &Vec<u8>) -> (request: DescribeRequest)
        ensures
            if old(self).phase == DescribePhase::Short && bytes@.len() > 0 && bytes@[0]
                > bytes@.len() {
                &&& request == DescribeRequest::Control(
                    reads_hub(old(self).superspeed, bytes@[0] as int),
                )
                &&& *final(self) == (HubDescription { phase: DescribePhase::Full, ..*old(self) })
            } else {
                described(*old(self), *final(self), bytes@, request)
            },
    {
        if self.phase == DescribePhase::Short {
            if let Some(length) = hub_descriptor_retry(bytes.as_slice()) {
                self.phase = DescribePhase::Full;
                return DescribeRequest::Control(hub_descriptor_request(self.superspeed, length));
            }
        }
        match parse_hub_descriptor(bytes.as_slice(), self.superspeed) {
            Err(error) => self.stop(UsbError::Descriptor(error)),
            Ok(descriptor) => {
                self.descriptor = descriptor;
                self.port = 1;
                self.phase = DescribePhase::Power;
                DescribeRequest::Control(set_port_feature(USB_PORT_FEATURE_POWER, 1))
            },
        }
    }

    /// Takes what came of the last request at `now` and says what to do next.
    pub fn step(&mut self, clock: &TimestampClock, now: u64, reply: HubReply) -> (request:
        DescribeRequest)
        requires
            describe_reply_fits(old(self).phase, reply),
        ensures
            describe_post(*old(self), *final(self), *clock, now, reply, request),
    {
        match reply {
            HubReply::Failed(error) => self.stop(error),
            HubReply::Bytes(bytes) => self.on_bytes(&bytes),
            HubReply::Done => {
                if self.phase == DescribePhase::Settle {
                    self.phase = DescribePhase::Ended;
                    return DescribeRequest::Finished(
                        hub_state(self.descriptor, self.superspeed, self.protocol),
                    );
                }
                if self.port < self.descriptor.ports {
                    self.port += 1;
                    return DescribeRequest::Control(
                        set_port_feature(USB_PORT_FEATURE_POWER, self.port),
                    );
                }
                self.phase = DescribePhase::Settle;
                DescribeRequest::WaitUntil(
                    power_good_deadline(clock, now, self.descriptor.power_good_ms),
                )
            },
        }
    }
}

/// Where a new device is, and how fast.
#[derive(Clone, Copy, Debug, PartialEq, Eq)]
pub struct Placement {
    pub path: UsbPath,
    pub speed: u8,
    pub parent_slot_id: Option<u8>,
    pub parent_port: Option<u8>,
    pub tt: Option<TtInfo>,
}

/// What a visit to a hub port waits for.
#[derive(Clone, Copy, Debug, PartialEq, Eq, Structural)]
pub enum VisitPhase {
    /// The status of the port.
    Status,
    /// The acknowledgement of a change.
    Clear,
    /// The reset to begin.
    Reset,
    /// Nothing: the visit has ended.
    Ended,
}

/// What the caller has to do next on a visit.
#[derive(Clone, Copy, Debug, PartialEq, Eq)]
pub enum VisitRequest {
    /// Send a control request to the hub.
    Control(ControlRequest),
    /// The device went away: tear its subtree down. The visit is over.
    Teardown(UsbPath),
    /// A new device was reset: enumerate it. The visit is over.
    Enumerate(Placement),
    Finished,
}

/// A visit to a port of a hub.
#[derive(Debug)]
pub struct HubVisit {
    pub phase: VisitPhase,
    /// Whether the port is being reset.
    pub resetting: bool,
    pub hub_index: usize,
    pub port: u8,
    pub path: UsbPath,
    /// Whether a new device can be given memory.
    pub resources: bool,
    pub status: HubPortStatus,
    /// The changes to acknowledge, and how many were.
    pub features: Vec<u16>,
    pub next: usize,
    /// When the reset has taken too long.
    pub deadline: u64,
}

/// The reply answers what a phase waits for.
pub open spec fn visit_reply_fits(phase: VisitPhase, reply: HubReply) -> bool {
    match reply {
        HubReply::Bytes(_) => phase == VisitPhase::Status,
        HubReply::Done => phase == VisitPhase::Clear || phase == VisitPhase::Reset,
        HubReply::Failed(_) => phase != VisitPhase::Ended,
    }
}

/// The hub is a SuperSpeed hub.
pub open spec fn is_superspeed(hub: UsbDevice) -> bool {
    hub.hub is Some && hub.hub->Some_0.superspeed
}

/// When an operation that starts at `now` has taken too long.
pub open spec fn too_long_at(clock: TimestampClock, now: u64) -> u64 {
    saturating_sum(
        now as int,
        saturating_product(clock.frequency as int, WAIT_SECONDS as int),
    ) as u64
}

/// The visit ended without a failure.
pub open spec fn visit_over<P>(
    before: HubVisit,
    after: HubVisit,
    hosts: (UsbHost<P>, UsbHost<P>),
) -> bool {
    &&& after == (HubVisit { phase: VisitPhase::Ended, ..before })
    &&& hosts.1 == hosts.0
}

/// The visit ended with a failure, which is kept.
pub open spec fn visit_failed<P>(
    before: HubVisit,
    after: HubVisit,
    hosts: (UsbHost<P>, UsbHost<P>),
    error: UsbError,
    request: VisitRequest,
) -> bool {
    &&& request == VisitRequest::Finished
    &&& after == (HubVisit { phase: VisitPhase::Ended, ..before })
    &&& hosts.1.noted(hosts.0, before.path, error)
}

/// The status of the port is asked for again, unless the reset took too long.
pub open spec fn polls_reset<P>(
    before: HubVisit,
    after: HubVisit,
    hosts: (UsbHost<P>, UsbHost<P>),
    now: u64,
    request: VisitRequest,
) -> bool {
    if now < before.deadline {
        &&& request == VisitRequest::Control(status_request(before.port))
        &&& after == (HubVisit { phase: VisitPhase::Status, ..before })
        &&& hosts.1 == hosts.0
    } else {
        visit_failed(before, after, hosts, UsbError::PortResetFailed, request)
    }
}

/// What a port needs whose status is known and acknowledged.
pub open spec fn decides<P>(
    before: HubVisit,
    after: HubVisit,
    hosts: (UsbHost<P>, UsbHost<P>),
    now: u64,
    request: VisitRequest,
) -> bool {
    let host = hosts.0;
    let hub = host.devices@[before.hub_index as int];
    if before.resetting {
        match reset_progress(before.status, hub.speed) {
            Err(error) => visit_failed(before, after, hosts, error, request),
            Ok(None) => polls_reset(before, after, hosts, now, request),
            Ok(Some(speed)) => {
                &&& visit_over(before, after, hosts)
                &&& request == VisitRequest::Enumerate(
                    Placement {
                        path: before.path,
                        speed,
                        parent_slot_id: Some(hub.slot_id),
                        parent_port: Some(before.port),
                        tt: child_tt_spec(hub, before.port, speed),
                    },
                )
            },
        }
    } else {
        match port_action_spec(
            before.path,
            has_bit(before.status.status as int, USB_PORT_STATUS_CONNECTION as int),
            host.has_child(hub.slot_id, before.port),
            host.occupied() >= MAX_DEVICES,
            before.resources,
        ) {
            PortAction::Nothing => {
                &&& visit_over(before, after, hosts)
                &&& request == VisitRequest::Finished
            },
            PortAction::Teardown(path) => {
                &&& visit_over(before, after, hosts)
                &&& request == VisitRequest::Teardown(path)
            },
            PortAction::Enumerate(_) => {
                &&& after == (HubVisit { phase: VisitPhase::Reset, ..before })
                &&& hosts.1 == hosts.0
                &&& request == VisitRequest::Control(
                    no_data_spec(
                        0x23,
                        USB_REQUEST_SET_FEATURE,
                        USB_PORT_FEATURE_RESET,
                        before.port as u16,
                    ),
                )
            },
        }
    }
}

/// The next change is acknowledged, or the port gets what it needs after the last.
pub open spec fn acknowledges<P>(
    before: HubVisit,
    after: HubVisit,
    hosts: (UsbHost<P>, UsbHost<P>),
    now: u64,
    request: VisitRequest,
) -> bool {
    if before.next < before.features@.len() {
        &&& request == VisitRequest::Control(
            no_data_spec(
                0x23,
                USB_REQUEST_CLEAR_FEATURE,
                before.features@[before.next as int],
                before.port as u16,
            ),
        )
        &&& after == (HubVisit { phase: VisitPhase::Clear, ..before })
        &&& hosts.1 == hosts.0
    } else {
        decides(before, after, hosts, now, request)
    }
}

/// What a reply leads to on a visit.
pub open spec fn visit_post<P>(
    before: HubVisit,
    after: HubVisit,
    hosts: (UsbHost<P>, UsbHost<P>),
    clock: TimestampClock,
    now: u64,
    reply: HubReply,
    request: VisitRequest,
) -> bool {
    match reply {
        HubReply::Failed(error) => visit_failed(before, after, hosts, error, request),
        HubReply::Bytes(bytes) => if bytes@.len() < 4 {
            visit_failed(
                before,
                after,
                hosts,
                UsbError::Descriptor(DescriptorError::TooShort),
                request,
            )
        } else {
            let status = HubPortStatus {
                status: le16_at(bytes@, 0) as u16,
                change: le16_at(bytes@, 2) as u16,
            };
            let hub = hosts.0.devices@[before.hub_index as int];
            &&& after.features@ == acknowledging_features(is_superspeed(hub), status.change, 16)
            &&& acknowledges(
                HubVisit { status, features: after.features, next: 0, ..before },
                after,
                hosts,
                now,
                request,
            )
        },
        HubReply::Done => if before.phase == VisitPhase::Clear {
            acknowledges(
                HubVisit { next: (before.next + 1) as usize, ..before },
                after,
                hosts,
                now,
                request,
            )
        } else {
            polls_reset(
                HubVisit { resetting: true, deadline: too_long_at(clock, now), ..before },
                after,
                hosts,
                now,
                request,
            )
        },
    }
}

/// What the beginning of a visit leads to.
pub open spec fn visit_begun<P>(
    visit: HubVisit,
    hosts: (UsbHost<P>, UsbHost<P>),
    hub_index: usize,
    port: u8,
    resources: bool,
    request: VisitRequest,
) -> bool {
    if hub_index >= hosts.0.devices@.len() {
        &&& request == VisitRequest::Finished
        &&& visit.phase == VisitPhase::Ended
        &&& hosts.1 == hosts.0
    } else {
        let hub = hosts.0.devices@[hub_index as int];
        match child_spec(hub.path, port) {
            Err(error) => {
                &&& request == VisitRequest::Finished
                &&& visit.phase == VisitPhase::Ended
                &&& hosts.1.noted(hosts.0, hub.path, error)
            },
            Ok(path) => {
                &&& request == VisitRequest::Control(status_request(port))
                &&& visit.phase == VisitPhase::Status
                &&& !visit.resetting
                &&& visit.hub_index == hub_index
                &&& visit.port == port
                &&& visit.path == path
                &&& visit.resources == resources
                &&& hosts.1 == hosts.0
            },
        }
    }
}

impl HubVisit {
    /// A change is being acknowledged, or none is.
    pub open spec fn wf(&self) -> bool {
        self.phase == VisitPhase::Clear ==> self.next < self.features@.len()
    }

    /// Begins a visit to port `port` of the hub at `hub_index`.
    pub fn new<P>(host: &mut UsbHost<P>, hub_index: usize, port: u8, resources: bool) -> (result: (
        HubVisit,
        VisitRequest,
    ))
        requires
            old(host).wf(),
        ensures
            final(host).wf(),
            result.0.wf(),
            visit_begun(
                result.0,
                (*old(host), *final(host)),
                hub_index,
                port,
                resources,
                result.1,
            ),
    {
        let mut visit = HubVisit {
            phase: VisitPhase::Ended,
            resetting: false,
            hub_index,
            port,
            path: UsbPath::root(0),
            resources,
            status: HubPortStatus { status: 0, change: 0 },
            features: Vec::new(),
            next: 0,
            deadline: 0,
        };
        if hub_index >= host.devices.len() {
            return (visit, VisitRequest::Finished);
        }
        let parent: UsbPath = host.devices[hub_index].path;
        match host.hub_port_path(hub_index, port) {
            Err(error) => {
                host.record_path_failure(parent, error);
                (visit, VisitRequest::Finished)
            },
            Ok(path) => {
                visit.path = path;
                visit.phase = VisitPhase::Status;
                (visit, VisitRequest::Control(get_port_status(port)))
            },
        }
    }

    fn fail<P>(&mut self, host: &mut UsbHost<P>, error: UsbError) -> (request: VisitRequest)
        requires
            old(host).wf(),
        ensures
            final(host).wf(),
            visit_failed(*old(self), *final(self), (*old(host), *final(host)), error, request),
    {
        self.phase = VisitPhase::Ended;
        host.record_path_failure(self.path, error);
        VisitRequest::Finished
    }

    fn poll_reset<P>(&mut self, host: &mut UsbHost<P>, now: u64) -> (request: VisitRequest)
        requires
            old(host).wf(),
        ensures
            final(host).wf(),
            final(self).wf(),
            polls_reset(*old(self), *final(self), (*old(host), *final(host)), now, request),
    {
        if now < self.deadline {
            self.phase = VisitPhase::Status;
            return VisitRequest::Control(get_port_status(self.port));
        }
        self.fail(host, UsbError::PortResetFailed)
    }

    fn decide<P>(&mut self, host: &mut UsbHost<P>, now: u64) -> (request: VisitRequest)
        requires
            old(host).wf(),
            old(self).hub_index < old(host).devices@.len(),
        ensures
            final(host).wf(),
            final(self).wf(),
            decides(*old(self), *final(self), (*old(host), *final(host)), now, request),
    {
        if self.resetting {
            let parent_speed: u8 = host.devices[self.hub_index].speed;
            match hub_reset_progress(self.status, parent_speed) {
                Err(error) => self.fail(host, error),
                Ok(None) => self.poll_reset(host, now),
                Ok(Some(speed)) => {
                    self.phase = VisitPhase::Ended;
                    VisitRequest::Enumerate(
                        Placement {
                            path: self.path,
                            speed,
                            parent_slot_id: Some(host.devices[self.hub_index].slot_id),
                            parent_port: Some(self.port),
                            tt: host.child_tt(self.hub_index, self.port, speed),
                        },
                    )
                },
            }
        } else {
            match host.hub_port_action(
                self.hub_index,
                self.port,
                self.path,
                self.status,
                self.resources,
            ) {
                PortAction::Nothing => {
                    self.phase = VisitPhase::Ended;
                    VisitRequest::Finished
                },
                PortAction::Teardown(path) => {
                    self.phase = VisitPhase::Ended;
                    VisitRequest::Teardown(path)
                },
                PortAction::Enumerate(_) => {
                    self.phase = VisitPhase::Reset;
                    VisitRequest::Control(set_port_feature(USB_PORT_FEATURE_RESET, self.port))
                },
            }
        }
    }

    fn acknowledge<P>(&mut self, host: &mut UsbHost<P>, now: u64) -> (request: VisitRequest)
        requires
            old(host).wf(),
            old(self).hub_index < old(host).devices@.len(),
        ensures
            final(host).wf(),
            final(self).wf(),
            acknowledges(*old(self), *final(self), (*old(host), *final(host)), now, request),
    {
        if self.next < self.features.len() {
            let feature: u16 = self.features[self.next];
            self.phase = VisitPhase::Clear;
            return VisitRequest::Control(clear_port_feature(feature, self.port));
        }
        self.decide(host, now)
    }

    /// Takes what came of the last request at `now` and says what to do next.
    pub fn step<P>(
        &mut self,
        host: &mut UsbHost<P>,
        clock: &TimestampClock,
        now: u64,
        reply: HubReply,
    ) -> (request: VisitRequest)
        requires
            old(self).wf(),
            old(host).wf(),
            old(self).hub_index < old(host).devices@.len(),
            visit_reply_fits(old(self).phase, reply),
        ensures
            final(self).wf(),
            final(host).wf(),
            visit_post(
                *old(self),
                *final(self),
                (*old(host), *final(host)),
                *clock,
                now,
                reply,
                request,
            ),
    {
        match reply {
            HubReply::Failed(error) => self.fail(host, error),
            HubReply::Bytes(bytes) => match parse_hub_port_status(bytes.as_slice()) {
                Err(error) => self.fail(host, error),
                Ok(status) => {
                    let superspeed: bool = match host.devices[self.hub_index].hub {
                        Some(hub) => hub.superspeed,
                        None => false,
                    };
                    self.status = status;
                    self.features = pending_features(status, superspeed);
                    self.next = 0;
                    self.acknowledge(host, now)
                },
            },
            HubReply::Done => {
                if self.phase == VisitPhase::Clear {
                    assert(self.next < self.features.len());
                    self.next += 1;
                    return self.acknowledge(host, now);
                }
                self.resetting = true;
                self.deadline = wait_deadline(clock, now);
                self.poll_reset(host, now)
            },
        }
    }
}

/// A device is enumerated only where there is none yet, after its port was reset and has come up,
/// and one that went away is torn down only where there was one.
pub proof fn law_hub_ports_are_enumerated_after_a_reset<P>(
    before: HubVisit,
    after: HubVisit,
    hosts: (UsbHost<P>, UsbHost<P>),
    clock: TimestampClock,
    now: u64,
    reply: HubReply,
    request: VisitRequest,
)
    requires
        visit_reply_fits(before.phase, reply),
        visit_post(before, after, hosts, clock, now, reply, request),
    ensures
        request matches VisitRequest::Enumerate(placement) ==> {
            &&& before.resetting
            &&& placement.path == before.path
            &&& reset_progress(
                after.status,
                hosts.0.devices@[before.hub_index as int].speed,
            ) == Ok::<Option<u8>, UsbError>(Some(placement.speed))
        },
        request matches VisitRequest::Teardown(path) ==> {
            &&& path == before.path
            &&& hosts.0.has_child(hosts.0.devices@[before.hub_index as int].slot_id, before.port)
        },
        !before.resetting && after.phase == VisitPhase::Reset ==> !hosts.0.has_child(
            hosts.0.devices@[before.hub_index as int].slot_id,
            before.port,
        ),
{
}

/// Ports of a device: none, if it is no hub.
pub open spec fn ports_of(device: UsbDevice) -> u8 {
    match device.hub {
        Some(hub) => hub.ports,
        None => 0,
    }
}

/// A walk over the ports of all hubs, hub by hub, those that are attached on the way included.
#[derive(Clone, Copy, Debug, PartialEq, Eq)]
pub struct HubWalk {
    /// The hub that is being walked, its ports, and the port that was visited last.
    pub hub: usize,
    pub ports: u8,
    pub port: u8,
    /// The device to look at after this hub.
    pub next: usize,
}

impl HubWalk {
    /// A walk that begins with the first device.
    pub fn new() -> (walk: HubWalk)
        ensures
            walk == (HubWalk { hub: 0, ports: 0, port: 0, next: 0 }),
    {
        HubWalk { hub: 0, ports: 0, port: 0, next: 0 }
    }

    /// The walk went on to `found`: to the next port of its hub, or to the first port of the
    /// next hub that has any. It is over where no slot is left or no hub.
    pub open spec fn walks(
        self,
        after: HubWalk,
        devices: Seq<UsbDevice>,
        full: bool,
        found: Option<(usize, u8)>,
    ) -> bool {
        if full {
            found is None && after == self
        } else if self.port < self.ports {
            &&& found == Some((self.hub, (self.port + 1) as u8))
            &&& after == (HubWalk { port: (self.port + 1) as u8, ..self })
        } else {
            match found {
                Some((hub, port)) => {
                    &&& self.next <= hub < devices.len()
                    &&& port == 1
                    &&& ports_of(devices[hub as int]) > 0
                    &&& forall|i: int| self.next <= i < hub ==> ports_of(#[trigger] devices[i]) == 0
                    &&& after == (HubWalk {
                        hub,
                        ports: ports_of(devices[hub as int]),
                        port: 1,
                        next: (hub + 1) as usize,
                    })
                },
                None => {
                    &&& forall|i: int|
                        self.next <= i < devices.len() ==> ports_of(#[trigger] devices[i]) == 0
                    &&& after == self
                },
            }
        }
    }

    /// The next port to visit.
    pub fn next_port<P>(&mut self, host: &UsbHost<P>) -> (found: Option<(usize, u8)>)
        requires
            host.wf(),
        ensures
            old(self).walks(
                *final(self),
                host.devices@,
                host.occupied() >= MAX_DEVICES,
                found,
            ),
    {
        if host.slot_capacity_reached() {
            return None;
        }
        if self.port < self.ports {
            self.port = self.port + 1;
            return Some((self.hub, self.port));
        }
        let mut index: usize = self.next;
        while index < host.devices.len()
            invariant
                *self == *old(self),
                self.port >= self.ports,
                host.wf(),
                host.occupied() < MAX_DEVICES,
                self.next <= index,
                forall|i: int| self.next <= i < index && i < host.devices@.len() ==> ports_of(
                    #[trigger] host.devices@[i],
                ) == 0,
            decreases host.devices@.len() - index,
        {
            if let Some(hub) = host.devices[index].hub {
                if hub.ports > 0 {
                    assert(index < host.devices.len());
                    *self = HubWalk { hub: index, ports: hub.ports, port: 1, next: index + 1 };
                    return Some((index, 1));
                }
            }
            index += 1;
        }
        None
    }
}

} // verus!
