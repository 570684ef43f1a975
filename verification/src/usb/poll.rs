//! One poll of a host: events first, then ports.
//!
//! The caller performs each request and hands back what came of it.
use vstd::prelude::*;

use super::controller::{
    check_running, next_deferred, USBSTS_HOST_CONTROLLER_ERROR, USBSTS_HOST_CONTROLLER_HALTED,
    USBSTS_HOST_SYSTEM_ERROR,
};
use super::error::UsbError;
use super::host::{HidReport, UsbHost, HUB_PORTS_PER_POLL, POLL_EVENT_BUDGET};
use super::lifecycle::EventAction;
use super::ring::Trb;

verus! {

/// What a poll waits for.
#[derive(Clone, Copy, Debug, PartialEq, Eq, Structural)]
pub enum PollPhase {
    /// The status of the controller.
    Running,
    /// Whether an interrupt arrived.
    Interrupt,
    /// The next event of the controller.
    Event,
    /// What a device has sent.
    Load,
    /// A doorbell to be rung.
    Ring,
    /// A root port that an event named.
    Port,
    /// The interrupt to be acknowledged.
    Acknowledge,
    /// What could not be given back to be tried again.
    Retry,
    /// The root port whose turn it is.
    Root,
    /// The hub port whose turn it is.
    Hub,
    /// Nothing: the poll is over.
    Ended,
}

/// What the caller has to do next in a poll.
#[derive(Debug)]
pub enum PollRequest {
    ReadStatus,
    TakeInterrupt,
    NextEvent,
    /// Read what the device in a slot has sent.
    LoadBuffers { slot: u8 },
    Ring { slot: u8, endpoint: u8 },
    ServicePort { port: u8, resources: bool },
    Acknowledge,
    Retry,
    VisitHub { hub_index: usize, port: u8, resources: bool },
    Finished(Vec<HidReport>),
    Failed(UsbError),
}

/// What came of a request in a poll.
#[derive(Clone, Copy, Debug, PartialEq, Eq)]
pub enum PollReply {
    Word(u32),
    Interrupt(bool),
    Event(Option<Trb>),
    Done,
    Failed(UsbError),
}

/// A poll of a host.
#[derive(Debug)]
pub struct PollFlow {
    pub phase: PollPhase,
    /// Whether new devices can be given memory.
    pub resources: bool,
    pub events_left: usize,
    pub hubs_left: usize,
    /// The event that is being handled, and its report.
    pub event: Trb,
    pub report: Option<HidReport>,
    pub reports: Vec<HidReport>,
}

/// The reply answers what a phase waits for.
pub open spec fn poll_reply_fits(phase: PollPhase, reply: PollReply) -> bool {
    match reply {
        PollReply::Word(_) => phase == PollPhase::Running,
        PollReply::Interrupt(_) => phase == PollPhase::Interrupt,
        PollReply::Event(_) => phase == PollPhase::Event,
        PollReply::Done => match phase {
            PollPhase::Load | PollPhase::Ring | PollPhase::Port | PollPhase::Acknowledge
            | PollPhase::Retry | PollPhase::Root | PollPhase::Hub => true,
            _ => false,
        },
        PollReply::Failed(_) => phase != PollPhase::Ended,
    }
}

/// The poll ended with an error.
pub open spec fn poll_failed(after: PollFlow, error: UsbError, request: PollRequest) -> bool {
    after.phase == PollPhase::Ended && request == PollRequest::Failed(error)
}

/// The events are done: the interrupt is acknowledged where there is one.
pub open spec fn poll_closes<P>(
    before: PollFlow,
    after: PollFlow,
    hosts: (UsbHost<P>, UsbHost<P>),
    request: PollRequest,
) -> bool {
    &&& hosts.1 == hosts.0
    &&& if hosts.0.msi_enabled {
        &&& request == PollRequest::Acknowledge
        &&& after == (PollFlow { phase: PollPhase::Acknowledge, ..before })
    } else {
        &&& request == PollRequest::Retry
        &&& after == (PollFlow { phase: PollPhase::Retry, ..before })
    }
}

/// The next event is handled: one that was kept first, then one of the controller.
pub open spec fn poll_goes_on<P>(
    before: PollFlow,
    after: PollFlow,
    hosts: (UsbHost<P>, UsbHost<P>),
    request: PollRequest,
) -> bool {
    let kept = hosts.0.deferred_events@;
    let left = (before.events_left - 1) as usize;
    if before.events_left == 0 {
        poll_closes(before, after, hosts, request)
    } else if kept.len() > 0 {
        &&& hosts.1.deferred_events@ == kept.skip(1)
        &&& hosts.1 == (UsbHost { deferred_events: hosts.1.deferred_events, ..hosts.0 })
        &&& request == (PollRequest::LoadBuffers { slot: kept[0].slot_spec() as u8 })
        &&& after == (PollFlow {
            phase: PollPhase::Load,
            events_left: left,
            event: kept[0],
            ..before
        })
    } else {
        &&& hosts.1 == hosts.0
        &&& request == PollRequest::NextEvent
        &&& after == (PollFlow { phase: PollPhase::Event, events_left: left, ..before })
    }
}

/// What an event that calls for `action` leads to; `handled` is the host after the event.
pub open spec fn event_leads_to<P>(
    before: PollFlow,
    after: PollFlow,
    hosts: (UsbHost<P>, UsbHost<P>),
    handled: UsbHost<P>,
    action: EventAction,
    request: PollRequest,
) -> bool {
    &&& handled.event_handled(hosts.0, before.event, before.reports@.len() as usize, action)
    &&& match action {
        EventAction::Nothing => poll_goes_on(before, after, (handled, hosts.1), request),
        EventAction::Failed(error) => poll_failed(after, error, request) && hosts.1 == handled,
        EventAction::ServicePort(port) => {
            &&& hosts.1 == handled
            &&& request == PollRequest::ServicePort { port, resources: false }
            &&& after == (PollFlow { phase: PollPhase::Port, ..before })
        },
        EventAction::Ring { slot, endpoint, report } => {
            &&& hosts.1 == handled
            &&& request == PollRequest::Ring { slot, endpoint }
            &&& after == (PollFlow { phase: PollPhase::Ring, report, ..before })
        },
    }
}

/// The next hub port is visited, or the poll is over.
pub open spec fn hubs_go_on<P>(
    before: PollFlow,
    after: PollFlow,
    hosts: (UsbHost<P>, UsbHost<P>),
    found: Option<(usize, u8)>,
    request: PollRequest,
) -> bool {
    if before.hubs_left == 0 {
        &&& hosts.1 == hosts.0
        &&& request == PollRequest::Finished(before.reports)
        &&& after.phase == PollPhase::Ended
    } else {
        &&& hosts.1.hub_port_taken(hosts.0, found)
        &&& match found {
            None => {
                &&& request == PollRequest::Finished(before.reports)
                &&& after.phase == PollPhase::Ended
            },
            Some((hub_index, port)) => {
                &&& request == (PollRequest::VisitHub {
                    hub_index,
                    port,
                    resources: before.resources,
                })
                &&& after == (PollFlow {
                    phase: PollPhase::Hub,
                    hubs_left: (before.hubs_left - 1) as usize,
                    ..before
                })
            },
        }
    }
}

/// The reports with one more, if there is one.
pub open spec fn with_report(reports: Seq<HidReport>, report: Option<HidReport>) -> Seq<HidReport> {
    match report {
        Some(report) => reports.push(report),
        None => reports,
    }
}

/// What comes after something was done in a poll.
pub open spec fn poll_done<P>(
    before: PollFlow,
    after: PollFlow,
    hosts: (UsbHost<P>, UsbHost<P>),
    request: PollRequest,
) -> bool {
    match before.phase {
        PollPhase::Load => exists|handled: UsbHost<P>, action: EventAction| #[trigger]
            event_leads_to(before, after, hosts, handled, action, request),
        PollPhase::Ring => {
            &&& after.reports@ == with_report(before.reports@, before.report)
            &&& poll_goes_on(
                PollFlow { report: None, reports: after.reports, ..before },
                after,
                hosts,
                request,
            )
        },
        PollPhase::Port => poll_goes_on(before, after, hosts, request),
        PollPhase::Acknowledge => {
            &&& hosts.1 == hosts.0
            &&& request == PollRequest::Retry
            &&& after == (PollFlow { phase: PollPhase::Retry, ..before })
        },
        PollPhase::Retry => {
            &&& after == (PollFlow { phase: PollPhase::Root, ..before })
            &&& request matches PollRequest::ServicePort { port, resources } && resources
                == before.resources && hosts.1.root_port_taken(hosts.0, port)
        },
        _ => exists|found: Option<(usize, u8)>| #[trigger]
            hubs_go_on(before, after, hosts, found, request),
    }
}

/// What a reply leads to in a poll.
pub open spec fn poll_post<P>(
    before: PollFlow,
    after: PollFlow,
    hosts: (UsbHost<P>, UsbHost<P>),
    reply: PollReply,
    request: PollRequest,
) -> bool {
    match reply {
        PollReply::Failed(error) => poll_failed(after, error, request) && hosts.1 == hosts.0,
        PollReply::Word(status) => {
            &&& hosts.1 == hosts.0
            &&& if status & (USBSTS_HOST_CONTROLLER_HALTED | USBSTS_HOST_SYSTEM_ERROR
                | USBSTS_HOST_CONTROLLER_ERROR) != 0 {
                poll_failed(after, UsbError::ControllerError, request)
            } else {
                &&& request == PollRequest::TakeInterrupt
                &&& after == (PollFlow { phase: PollPhase::Interrupt, ..before })
            }
        },
        PollReply::Interrupt(pending) => exists|begun: UsbHost<P>, drain: bool| #[trigger]
            poll_drains(before, after, hosts, pending, begun, drain, request),
        PollReply::Event(None) => poll_closes(before, after, hosts, request),
        PollReply::Event(Some(event)) => {
            &&& hosts.1 == hosts.0
            &&& request == (PollRequest::LoadBuffers { slot: event.slot_spec() as u8 })
            &&& after == (PollFlow { phase: PollPhase::Load, event, ..before })
        },
        PollReply::Done => poll_done(before, after, hosts, request),
    }
}

/// The events are drained if the poll is one that drains.
pub open spec fn poll_drains<P>(
    before: PollFlow,
    after: PollFlow,
    hosts: (UsbHost<P>, UsbHost<P>),
    pending: bool,
    begun: UsbHost<P>,
    drain: bool,
    request: PollRequest,
) -> bool {
    &&& begun.poll_begun(hosts.0, pending, drain)
    &&& if drain {
        poll_goes_on(before, after, (begun, hosts.1), request)
    } else {
        poll_closes(before, after, (begun, hosts.1), request)
    }
}

impl<P> UsbHost<P> {
    /// Begins a poll that gives no memory to new devices.
    pub fn poll(&self) -> (result: (PollFlow, PollRequest))
        ensures
            result.0.fresh(false),
            result.1 == PollRequest::ReadStatus,
    {
        PollFlow::new(false)
    }

    /// Begins a poll that also enumerates new devices.
    pub fn poll_with_resources(&self) -> (result: (PollFlow, PollRequest))
        ensures
            result.0.fresh(true),
            result.1 == PollRequest::ReadStatus,
    {
        PollFlow::new(true)
    }
}

impl PollFlow {
    /// The budgets of one poll.
    pub open spec fn wf(&self) -> bool {
        &&& self.events_left <= POLL_EVENT_BUDGET
        &&& self.hubs_left <= HUB_PORTS_PER_POLL
    }

    /// Nothing has been done yet.
    pub open spec fn fresh(&self, resources: bool) -> bool {
        &&& self.wf()
        &&& self.phase == PollPhase::Running
        &&& self.resources == resources
        &&& self.events_left == POLL_EVENT_BUDGET
        &&& self.hubs_left == HUB_PORTS_PER_POLL
        &&& self.report is None
        &&& self.reports@.len() == 0
    }

    fn new(resources: bool) -> (result: (PollFlow, PollRequest))
        ensures
            result.0.fresh(resources),
            result.1 == PollRequest::ReadStatus,
    {
        let flow = PollFlow {
            phase: PollPhase::Running,
            resources,
            events_left: POLL_EVENT_BUDGET,
            hubs_left: HUB_PORTS_PER_POLL,
            event: Trb::new(0, 0, 0),
            report: None,
            reports: Vec::new(),
        };
        (flow, PollRequest::ReadStatus)
    }

    fn over() -> (flow: PollFlow)
        ensures
            flow.wf(),
            flow.phase == PollPhase::Ended,
    {
        PollFlow {
            phase: PollPhase::Ended,
            resources: false,
            events_left: 0,
            hubs_left: 0,
            event: Trb::new(0, 0, 0),
            report: None,
            reports: Vec::new(),
        }
    }

    fn close<P>(self, host: &UsbHost<P>) -> (result: (PollFlow, PollRequest))
        requires
            self.wf(),
        ensures
            result.0.wf(),
            poll_closes(self, result.0, (*host, *host), result.1),
    {
        let mut flow: PollFlow = self;
        if host.msi_enabled {
            flow.phase = PollPhase::Acknowledge;
            (flow, PollRequest::Acknowledge)
        } else {
            flow.phase = PollPhase::Retry;
            (flow, PollRequest::Retry)
        }
    }

    fn go_on<P>(self, host: &mut UsbHost<P>) -> (result: (PollFlow, PollRequest))
        requires
            self.wf(),
            old(host).wf(),
        ensures
            result.0.wf(),
            final(host).wf(),
            poll_goes_on(self, result.0, (*old(host), *final(host)), result.1),
    {
        if self.events_left == 0 {
            return self.close(host);
        }
        let mut flow: PollFlow = self;
        flow.events_left -= 1;
        if host.deferred_events.len() > 0 {
            if let Some(event) = next_deferred(&mut host.deferred_events) {
                flow.phase = PollPhase::Load;
                flow.event = event;
                return (flow, PollRequest::LoadBuffers { slot: event.slot_id() });
            }
        }
        flow.phase = PollPhase::Event;
        (flow, PollRequest::NextEvent)
    }

    fn on_loaded<P>(self, host: &mut UsbHost<P>) -> (result: (PollFlow, PollRequest))
        requires
            self.wf(),
            old(host).wf(),
            self.phase == PollPhase::Load,
        ensures
            result.0.wf(),
            final(host).wf(),
            poll_done(self, result.0, (*old(host), *final(host)), result.1),
    {
        let ghost before = *host;
        let action: EventAction = host.process_event(self.event, self.reports.len());
        let ghost handled = *host;
        let ghost called = action;
        let mut flow: PollFlow = self;
        let result: (PollFlow, PollRequest) = match action {
            EventAction::Nothing => flow.go_on(host),
            EventAction::Failed(error) => (PollFlow::over(), PollRequest::Failed(error)),
            EventAction::ServicePort(port) => {
                flow.phase = PollPhase::Port;
                (flow, PollRequest::ServicePort { port, resources: false })
            },
            EventAction::Ring { slot, endpoint, report } => {
                flow.phase = PollPhase::Ring;
                flow.report = report;
                (flow, PollRequest::Ring { slot, endpoint })
            },
        };
        assert(event_leads_to(self, result.0, (before, *host), handled, called, result.1));
        result
    }

    fn on_hubs<P>(self, host: &mut UsbHost<P>) -> (result: (PollFlow, PollRequest))
        requires
            self.wf(),
            old(host).wf(),
        ensures
            result.0.wf(),
            final(host).wf(),
            exists|found: Option<(usize, u8)>| #[trigger]
                hubs_go_on(self, result.0, (*old(host), *final(host)), found, result.1),
    {
        let ghost before = *host;
        if self.hubs_left == 0 {
            let result: (PollFlow, PollRequest) = (
                PollFlow::over(),
                PollRequest::Finished(self.reports),
            );
            assert(hubs_go_on(self, result.0, (before, *host), None, result.1));
            return result;
        }
        let found: Option<(usize, u8)> = host.next_hub_port();
        let result: (PollFlow, PollRequest) = match found {
            None => (PollFlow::over(), PollRequest::Finished(self.reports)),
            Some((hub_index, port)) => {
                let mut flow: PollFlow = self;
                flow.phase = PollPhase::Hub;
                flow.hubs_left -= 1;
                let resources: bool = flow.resources;
                (flow, PollRequest::VisitHub { hub_index, port, resources })
            },
        };
        assert(hubs_go_on(self, result.0, (before, *host), found, result.1));
        result
    }

    fn on_done<P>(self, host: &mut UsbHost<P>) -> (result: (PollFlow, PollRequest))
        requires
            self.wf(),
            old(host).wf(),
            poll_reply_fits(self.phase, PollReply::Done),
        ensures
            result.0.wf(),
            final(host).wf(),
            poll_done(self, result.0, (*old(host), *final(host)), result.1),
    {
        match self.phase {
            PollPhase::Load => self.on_loaded(host),
            PollPhase::Ring => {
                let mut flow: PollFlow = self;
                if let Some(report) = flow.report.take() {
                    flow.reports.push(report);
                }
                flow.go_on(host)
            },
            PollPhase::Port => self.go_on(host),
            PollPhase::Acknowledge => {
                let mut flow: PollFlow = self;
                flow.phase = PollPhase::Retry;
                (flow, PollRequest::Retry)
            },
            PollPhase::Retry => {
                let mut flow: PollFlow = self;
                let port: u8 = host.next_root_port();
                let resources: bool = flow.resources;
                flow.phase = PollPhase::Root;
                (flow, PollRequest::ServicePort { port, resources })
            },
            _ => self.on_hubs(host),
        }
    }

    /// Takes what came of the last request and says what to do next.
    pub fn step<P>(self, host: &mut UsbHost<P>, reply: PollReply) -> (result: (
        PollFlow,
        PollRequest,
    ))
        requires
            self.wf(),
            old(host).wf(),
            poll_reply_fits(self.phase, reply),
        ensures
            result.0.wf(),
            final(host).wf(),
            poll_post(self, result.0, (*old(host), *final(host)), reply, result.1),
    {
        match reply {
            PollReply::Failed(error) => (PollFlow::over(), PollRequest::Failed(error)),
            PollReply::Word(status) => match check_running(status) {
                Err(error) => (PollFlow::over(), PollRequest::Failed(error)),
                Ok(()) => {
                    let mut flow: PollFlow = self;
                    flow.phase = PollPhase::Interrupt;
                    (flow, PollRequest::TakeInterrupt)
                },
            },
            PollReply::Interrupt(pending) => {
                let ghost before = *host;
                let drain: bool = host.begin_poll(pending);
                let ghost begun = *host;
                let result: (PollFlow, PollRequest) = if drain {
                    self.go_on(host)
                } else {
                    self.close(host)
                };
                assert(poll_drains(
                    self,
                    result.0,
                    (before, *host),
                    pending,
                    begun,
                    drain,
                    result.1,
                ));
                result
            },
            PollReply::Event(None) => self.close(host),
            PollReply::Event(Some(event)) => {
                let mut flow: PollFlow = self;
                flow.phase = PollPhase::Load;
                flow.event = event;
                (flow, PollRequest::LoadBuffers { slot: event.slot_id() })
            },
            PollReply::Done => self.on_done(host),
        }
    }
}

/// How many more steps a poll can take at most.
pub open spec fn steps_left(flow: PollFlow) -> int {
    let events = 20 + 4 * flow.events_left;
    match flow.phase {
        PollPhase::Running => events + 5,
        PollPhase::Interrupt => events + 4,
        PollPhase::Event => events + 3,
        PollPhase::Load => events + 2,
        PollPhase::Ring | PollPhase::Port => events + 1,
        PollPhase::Acknowledge => 12,
        PollPhase::Retry => 11,
        PollPhase::Root => 10,
        PollPhase::Hub => 1 + flow.hubs_left,
        PollPhase::Ended => 0,
    }
}

/// A poll ends: every step leaves fewer steps, however many events and ports there are.
pub proof fn law_polls_are_bounded<P>(
    before: PollFlow,
    after: PollFlow,
    hosts: (UsbHost<P>, UsbHost<P>),
    reply: PollReply,
    request: PollRequest,
)
    requires
        before.wf(),
        poll_reply_fits(before.phase, reply),
        poll_post(before, after, hosts, reply, request),
    ensures
        0 <= steps_left(after) < steps_left(before),
        steps_left(before) <= 20 + 4 * POLL_EVENT_BUDGET + 5,
{
}

} // verus!
